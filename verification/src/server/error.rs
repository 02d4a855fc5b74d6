//! Errors of the simulated PLC's connection setup.
use vstd::prelude::*;
use crate::error::ProtoError;

verus! {

/// Why a connection setup was refused (the transport's own I/O errors are
/// reported by the caller that performs the I/O).
#[derive(Debug, Clone)]
pub enum Error {
    /// A frame could not be decoded.
    Proto(ProtoError),
    /// The peer did not follow the connect/negotiate sequence.
    NegotiationFailed,
}

} // verus!
