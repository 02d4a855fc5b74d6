//! SZL (system status list) queries carried in UserData PDUs.
use vstd::prelude::*;
use crate::error::ProtoError;
use crate::wire::{be16_at, be16_bytes, copy_range, lemma_be16_roundtrip, push_be16, read_be16};

verus! {

/// An SZL query: list id and index.
#[derive(Debug, Clone, Copy, PartialEq, Eq, Structural)]
pub struct SzlRequest {
    pub szl_id: u16,
    pub szl_index: u16,
}

/// An SZL answer: list id, index and the entry bytes that follow them.
#[derive(Debug, Clone)]
pub struct SzlResponse {
    pub szl_id: u16,
    pub szl_index: u16,
    pub data: Vec<u8>,
}

/// The 8-byte UserData parameter block of a "read SZL" request.
pub open spec fn szl_params_bytes() -> Seq<u8> {
    seq![0x00u8, 0x01, 0x12, 0x04, 0x11, 0x44, 0x01, 0x00]
}

/// The 8-byte data block of a "read SZL" request.
pub open spec fn szl_data_bytes(r: SzlRequest) -> Seq<u8> {
    seq![0xFFu8, 0x09] + be16_bytes(4) + be16_bytes(r.szl_id) + be16_bytes(r.szl_index)
}

impl SzlRequest {
    /// Appends the UserData parameter block (group SZL, subfunction "read SZL").
    pub fn encode_params(&self, buf: &mut Vec<u8>)
        ensures
            final(buf)@ == old(buf)@ + szl_params_bytes(),
    {
        buf.push(0x00);
        buf.push(0x01);
        buf.push(0x12);
        buf.push(0x04);
        buf.push(0x11);
        buf.push(0x44);
        buf.push(0x01);
        buf.push(0x00);
        assert(final(buf)@ =~= old(buf)@ + szl_params_bytes());
    }

    /// Appends the data block: return code, octet transport, length 4, id and index.
    pub fn encode_data(&self, buf: &mut Vec<u8>)
        ensures
            final(buf)@ == old(buf)@ + szl_data_bytes(*self),
    {
        buf.push(0xFF);
        buf.push(0x09);
        push_be16(buf, 0x0004);
        push_be16(buf, self.szl_id);
        push_be16(buf, self.szl_index);
        assert(final(buf)@ =~= old(buf)@ + szl_data_bytes(*self));
    }

    /// Appends the parameter block followed by the data block.
    pub fn encode(&self, buf: &mut Vec<u8>)
        ensures
            final(buf)@ == old(buf)@ + szl_params_bytes() + szl_data_bytes(*self),
    {
        self.encode_params(buf);
        self.encode_data(buf);
    }

    /// Reads the id and index of a request laid out as `encode` writes it (16 bytes).
    pub fn decode(buf: &[u8]) -> (r: Result<(SzlRequest, usize), ProtoError>)
        ensures
            buf@.len() < 16 ==> r == Err::<(SzlRequest, usize), ProtoError>(
                ProtoError::BufferTooShort { need: 16, have: buf@.len() as usize },
            ),
            buf@.len() >= 16 ==> r == Ok::<(SzlRequest, usize), ProtoError>(
                (SzlRequest { szl_id: be16_at(buf@, 12), szl_index: be16_at(buf@, 14) }, 16),
            ),
    {
        if buf.len() < 16 {
            return Err(ProtoError::BufferTooShort { need: 16, have: buf.len() });
        }
        Ok((SzlRequest { szl_id: read_be16(buf, 12), szl_index: read_be16(buf, 14) }, 16))
    }
}

/// A request reads back as written.
pub proof fn lemma_szl_request_roundtrip(r: SzlRequest)
    ensures
        ({
            let s = szl_params_bytes() + szl_data_bytes(r);
            s.len() == 16 && be16_at(s, 12) == r.szl_id && be16_at(s, 14) == r.szl_index
        }),
{
    let s = szl_params_bytes() + szl_data_bytes(r);
    lemma_be16_roundtrip(r.szl_id);
    lemma_be16_roundtrip(r.szl_index);
    assert(be16_at(s, 12) == be16_at(be16_bytes(r.szl_id), 0));
    assert(be16_at(s, 14) == be16_at(be16_bytes(r.szl_index), 0));
}

impl SzlResponse {
    /// Decodes an SZL data block `[id: 2][index: 2][entries...]`; the entries
    /// (everything after the first four bytes) become `data`.
    pub fn decode(buf: &[u8]) -> (r: Result<(SzlResponse, usize), ProtoError>)
        ensures
            buf@.len() < 8 ==> r == Err::<(SzlResponse, usize), ProtoError>(
                ProtoError::BufferTooShort { need: 8, have: buf@.len() as usize },
            ),
            buf@.len() >= 8 ==> (r matches Ok((resp, n)) && resp.szl_id == be16_at(buf@, 0)
                && resp.szl_index == be16_at(buf@, 2) && resp.data@ == buf@.subrange(
                4,
                buf@.len() as int,
            ) && n == buf@.len()),
    {
        if buf.len() < 8 {
            return Err(ProtoError::BufferTooShort { need: 8, have: buf.len() });
        }
        let szl_id = read_be16(buf, 0);
        let szl_index = read_be16(buf, 2);
        let data = copy_range(buf, 4, buf.len());
        Ok((SzlResponse { szl_id, szl_index, data }, buf.len()))
    }
}

} // verus!
