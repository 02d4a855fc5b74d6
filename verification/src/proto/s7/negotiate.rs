//! S7 "setup communication" (PDU size negotiation) parameters.
use vstd::prelude::*;
use crate::error::ProtoError;
use crate::wire::{be16_at, be16_bytes, lemma_be16_roundtrip, push_be16, read_be16};

verus! {

pub const FUNC_NEGOTIATE: u8 = 0xF0;

/// The negotiation parameters a client proposes.
#[derive(Debug, Clone, Copy, PartialEq, Eq, Structural)]
pub struct NegotiateRequest {
    pub max_amq_calling: u16,
    pub max_amq_called: u16,
    pub pdu_length: u16,
}

/// The negotiation parameters the PLC grants.
#[derive(Debug, Clone, Copy, PartialEq, Eq, Structural)]
pub struct NegotiateResponse {
    pub max_amq_calling: u16,
    pub max_amq_called: u16,
    pub pdu_length: u16,
}

/// The 8 wire bytes of negotiation parameters.
pub open spec fn negotiate_bytes(calling: u16, called: u16, pdu: u16) -> Seq<u8> {
    seq![FUNC_NEGOTIATE, 0x00u8] + be16_bytes(calling) + be16_bytes(called) + be16_bytes(pdu)
}

/// What decoding negotiation parameters gives: (calling, called, PDU length).
pub open spec fn negotiate_decode_spec(s: Seq<u8>) -> Result<(u16, u16, u16), ProtoError> {
    if s.len() < 8 {
        Err(ProtoError::BufferTooShort { need: 8, have: s.len() as usize })
    } else if s[0] != FUNC_NEGOTIATE {
        Err(ProtoError::UnsupportedFunction(s[0]))
    } else {
        Ok((be16_at(s, 2), be16_at(s, 4), be16_at(s, 6)))
    }
}

fn encode_negotiate(calling: u16, called: u16, pdu: u16, buf: &mut Vec<u8>)
    ensures
        final(buf)@ == old(buf)@ + negotiate_bytes(calling, called, pdu),
{
    buf.push(FUNC_NEGOTIATE);
    buf.push(0x00);
    push_be16(buf, calling);
    push_be16(buf, called);
    push_be16(buf, pdu);
    assert(final(buf)@ =~= old(buf)@ + negotiate_bytes(calling, called, pdu));
}

fn decode_negotiate(buf: &[u8]) -> (r: Result<(u16, u16, u16), ProtoError>)
    ensures
        r == negotiate_decode_spec(buf@),
{
    if buf.len() < 8 {
        return Err(ProtoError::BufferTooShort { need: 8, have: buf.len() });
    }
    if buf[0] != FUNC_NEGOTIATE {
        return Err(ProtoError::UnsupportedFunction(buf[0]));
    }
    Ok((read_be16(buf, 2), read_be16(buf, 4), read_be16(buf, 6)))
}

impl NegotiateRequest {
    /// Appends the 8 wire bytes of the parameters.
    pub fn encode(&self, buf: &mut Vec<u8>)
        ensures
            final(buf)@ == old(buf)@ + negotiate_bytes(
                self.max_amq_calling,
                self.max_amq_called,
                self.pdu_length,
            ),
    {
        encode_negotiate(self.max_amq_calling, self.max_amq_called, self.pdu_length, buf)
    }

    /// Decodes the parameters from the front of `buf` (8 bytes).
    pub fn decode(buf: &[u8]) -> (r: Result<NegotiateRequest, ProtoError>)
        ensures
            match negotiate_decode_spec(buf@) {
                Ok((a, b, c)) => r == Ok::<NegotiateRequest, ProtoError>(
                    NegotiateRequest { max_amq_calling: a, max_amq_called: b, pdu_length: c },
                ),
                Err(e) => r == Err::<NegotiateRequest, ProtoError>(e),
            },
    {
        match decode_negotiate(buf) {
            Ok((a, b, c)) => Ok(NegotiateRequest { max_amq_calling: a, max_amq_called: b, pdu_length: c }),
            Err(e) => Err(e),
        }
    }
}

impl NegotiateResponse {
    /// Appends the 8 wire bytes of the parameters.
    pub fn encode(&self, buf: &mut Vec<u8>)
        ensures
            final(buf)@ == old(buf)@ + negotiate_bytes(
                self.max_amq_calling,
                self.max_amq_called,
                self.pdu_length,
            ),
    {
        encode_negotiate(self.max_amq_calling, self.max_amq_called, self.pdu_length, buf)
    }

    /// Decodes the parameters from the front of `buf` (8 bytes).
    pub fn decode(buf: &[u8]) -> (r: Result<NegotiateResponse, ProtoError>)
        ensures
            match negotiate_decode_spec(buf@) {
                Ok((a, b, c)) => r == Ok::<NegotiateResponse, ProtoError>(
                    NegotiateResponse { max_amq_calling: a, max_amq_called: b, pdu_length: c },
                ),
                Err(e) => r == Err::<NegotiateResponse, ProtoError>(e),
            },
    {
        match decode_negotiate(buf) {
            Ok((a, b, c)) => Ok(NegotiateResponse { max_amq_calling: a, max_amq_called: b, pdu_length: c }),
            Err(e) => Err(e),
        }
    }
}

/// Negotiation parameters read back as written, whatever follows them.
pub proof fn lemma_negotiate_roundtrip(calling: u16, called: u16, pdu: u16, rest: Seq<u8>)
    ensures
        negotiate_decode_spec(negotiate_bytes(calling, called, pdu) + rest) == Ok::<
            (u16, u16, u16),
            ProtoError,
        >((calling, called, pdu)),
{
    let s = negotiate_bytes(calling, called, pdu) + rest;
    lemma_be16_roundtrip(calling);
    lemma_be16_roundtrip(called);
    lemma_be16_roundtrip(pdu);
    assert(be16_at(s, 2) == be16_at(be16_bytes(calling), 0));
    assert(be16_at(s, 4) == be16_at(be16_bytes(called), 0));
    assert(be16_at(s, 6) == be16_at(be16_bytes(pdu), 0));
}

} // verus!
