//! TPKT (RFC 1006) framing: `[0x03][0x00][total length: 2]` then the payload.
use vstd::prelude::*;
use crate::error::ProtoError;
use crate::text::{decimal, numbered_message};
use crate::wire::{be16_at, be16_bytes, copy_range, lemma_be16_roundtrip, push_be16, push_slice, read_be16};

verus! {

pub const TPKT_VERSION: u8 = 0x03;
pub const TPKT_HEADER_LEN: usize = 4;

/// One TPKT frame.
#[derive(Debug)]
pub struct TpktFrame {
    pub payload: Vec<u8>,
}

/// The bytes of a TPKT frame around `payload`.
pub open spec fn tpkt_bytes(payload: Seq<u8>) -> Seq<u8> {
    seq![TPKT_VERSION, 0u8] + be16_bytes((payload.len() + 4) as u16) + payload
}

/// The text of the error for a frame of `total` bytes, more than TPKT holds.
pub open spec fn frame_too_large_text(total: nat) -> Seq<char> {
    "frame too large: "@ + decimal(total) + " bytes exceeds TPKT maximum of 65535"@
}

/// What decoding `s` gives: the payload and the number of bytes consumed.
pub open spec fn tpkt_decode_spec(s: Seq<u8>) -> Result<(Seq<u8>, int), ProtoError> {
    if s.len() < 4 {
        Err(ProtoError::BufferTooShort { need: 4, have: s.len() as usize })
    } else if s[0] != TPKT_VERSION {
        Err(ProtoError::InvalidMagic { expected: TPKT_VERSION, got: s[0] })
    } else if (be16_at(s, 2) as int) < 4 {
        Err(ProtoError::BufferTooShort { need: 4, have: be16_at(s, 2) as usize })
    } else if s.len() < be16_at(s, 2) as int {
        Err(ProtoError::BufferTooShort { need: be16_at(s, 2) as usize, have: s.len() as usize })
    } else {
        Ok((s.subrange(4, be16_at(s, 2) as int), be16_at(s, 2) as int))
    }
}

impl TpktFrame {
    /// Appends the frame to `buf`; a frame longer than 65535 bytes in all is refused
    /// and leaves `buf` unchanged.
    pub fn encode(&self, buf: &mut Vec<u8>) -> (r: Result<(), ProtoError>)
        ensures
            self.payload@.len() + 4 <= u16::MAX ==> r is Ok && final(buf)@ == old(buf)@
                + tpkt_bytes(self.payload@),
            self.payload@.len() + 4 > u16::MAX ==> (r matches Err(ProtoError::EncodingFailed(m))
                && (self.payload@.len() + 4 <= u64::MAX ==> m@ == frame_too_large_text(
                (self.payload@.len() + 4) as nat,
            ))) && final(buf)@ == old(buf)@,
    {
        let len = self.payload.len();
        if len > 65531 {
            let total: u64 = if len as u64 <= u64::MAX - 4 {
                len as u64 + 4
            } else {
                u64::MAX
            };
            return Err(
                ProtoError::EncodingFailed(
                    numbered_message("frame too large: ", total, " bytes exceeds TPKT maximum of 65535"),
                ),
            );
        }
        buf.push(TPKT_VERSION);
        buf.push(0x00);
        push_be16(buf, (len + 4) as u16);
        push_slice(buf, self.payload.as_slice());
        assert(final(buf)@ =~= old(buf)@ + tpkt_bytes(self.payload@));
        Ok(())
    }

    /// Decodes a frame from the front of `buf`; returns it with the number of bytes used.
    pub fn decode(buf: &[u8]) -> (r: Result<(TpktFrame, usize), ProtoError>)
        ensures
            match tpkt_decode_spec(buf@) {
                Ok((p, n)) => (r matches Ok((f, m)) && f.payload@ == p && m == n),
                Err(e) => r == Err::<(TpktFrame, usize), ProtoError>(e),
            },
    {
        if buf.len() < 4 {
            return Err(ProtoError::BufferTooShort { need: 4, have: buf.len() });
        }
        if buf[0] != TPKT_VERSION {
            return Err(ProtoError::InvalidMagic { expected: TPKT_VERSION, got: buf[0] });
        }
        let total = read_be16(buf, 2) as usize;
        if total < 4 {
            return Err(ProtoError::BufferTooShort { need: 4, have: total });
        }
        if buf.len() < total {
            return Err(ProtoError::BufferTooShort { need: total, have: buf.len() });
        }
        let payload = copy_range(buf, 4, total);
        Ok((TpktFrame { payload }, total))
    }
}

/// Decoding the bytes of a frame gives back its payload, and consumes exactly
/// those bytes, whatever follows them.
pub proof fn lemma_tpkt_roundtrip(payload: Seq<u8>, rest: Seq<u8>)
    requires
        payload.len() + 4 <= u16::MAX,
    ensures
        tpkt_decode_spec(tpkt_bytes(payload) + rest) == Ok::<(Seq<u8>, int), ProtoError>(
            (payload, payload.len() + 4int),
        ),
{
    let s = tpkt_bytes(payload) + rest;
    lemma_be16_roundtrip((payload.len() + 4) as u16);
    assert(be16_at(s, 2) == be16_at(be16_bytes((payload.len() + 4) as u16), 0));
    assert(s.subrange(4, payload.len() + 4int) =~= payload);
}

} // verus!
