//! Error types of the protocol layer and of the client operations.
use vstd::prelude::*;

verus! {

/// Errors raised while encoding or decoding protocol frames.
#[derive(Debug, Clone)]
pub enum ProtoError {
    /// The buffer holds fewer bytes than the frame needs.
    BufferTooShort { need: usize, have: usize },
    /// A marker byte differs from the value the format fixes.
    InvalidMagic { expected: u8, got: u8 },
    /// The PDU type byte is not one this stack knows.
    UnsupportedPduType(u8),
    /// The function code byte is not the expected one.
    UnsupportedFunction(u8),
    /// A value does not fit the wire format.
    EncodingFailed(String),
    /// The area code byte is not one this stack knows.
    UnsupportedArea(u8),
    /// The transport size byte is not one this stack knows.
    UnsupportedTransportSize(u8),
    /// The S7CommPlus version byte is not one this stack knows.
    InvalidVersion(u8),
    /// An S7CommPlus trailer or integrity digest does not match.
    IntegrityFailure,
}

/// Errors of the client operations (the transport's own I/O errors are
/// reported by the caller that performs the I/O).
#[derive(Debug, Clone)]
pub enum Error {
    /// A frame could not be encoded or decoded.
    Proto(ProtoError),
    /// The PLC answered with an error code.
    PlcError { code: u32, message: String },
    /// No answer arrived within the given number of milliseconds.
    Timeout(u64),
    /// The COTP or S7 negotiation did not complete.
    NegotiationFailed,
    /// The PLC refused the connection or did not respond.
    ConnectionRefused,
    /// The answer does not have the shape the request calls for.
    UnexpectedResponse,
}

/// Two protocol errors agree: the same variant with the same fields, where the
/// text of an `EncodingFailed` is free.
pub open spec fn same_error(a: ProtoError, b: ProtoError) -> bool {
    match a {
        ProtoError::EncodingFailed(_) => b is EncodingFailed,
        _ => a == b,
    }
}

/// A result agrees with the outcome a specification gives: the same value on
/// success, an agreeing error on failure.
pub open spec fn agrees<T>(r: Result<T, ProtoError>, s: Result<T, ProtoError>) -> bool {
    match s {
        Ok(v) => r == Ok::<T, ProtoError>(v),
        Err(e) => match r {
            Ok(_) => false,
            Err(e2) => same_error(e2, e),
        },
    }
}

/// An `EncodingFailed` error with some text, for use in specifications.
pub open spec fn encoding_failed() -> ProtoError {
    ProtoError::EncodingFailed(vstd::pervasive::arbitrary())
}

/// Builds a `String` holding the characters of `s`.
pub fn text(s: &str) -> (r: String)
    ensures
        r@ == s@,
{
    String::from_str(s)
}

} // verus!
