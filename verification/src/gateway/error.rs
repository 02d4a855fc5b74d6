//! Errors of the gateway.
use vstd::prelude::*;

verus! {

/// Why a gateway operation failed.
#[derive(Debug)]
pub enum Error {
    /// The PLC connection failed.
    Plc(crate::error::Error),
    /// The OPC-UA side refused an operation.
    OpcUa(String),
    /// The configuration is not usable.
    Config(String),
    /// A tag string of the configuration does not parse.
    InvalidTag { tag: String, reason: String },
}

} // verus!
