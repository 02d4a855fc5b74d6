//! The parameter block and data header of BSend/BRecv user-data PDUs.
use vstd::prelude::*;
use crate::wire::{be16_at, be16_bytes, be32_at, be32_bytes, lemma_be16_roundtrip, lemma_be32_roundtrip, push_be16, push_be32, read_be16, read_be32};

verus! {

/// Group byte of a BSend request.
pub const GR_BSEND: u8 = 0x46;
/// Group byte of a BSend acknowledgement.
pub const GR_BSEND_ACK: u8 = 0x86;
/// Size of the S7 user-data header.
pub const S7_HDR_LEN: usize = 10;
/// Size of the BSend parameter block.
pub const BSEND_PARAMS_LEN: usize = 12;
/// Size of the BSend data header.
pub const BSEND_DATA_HDR_LEN: usize = 12;

/// The BSend parameter block.
#[derive(Debug, Clone, Copy, PartialEq, Eq, Structural)]
pub struct BSendParams {
    pub tg: u8,
    pub sub_fun: u8,
    pub seq: u8,
    pub id_seq: u8,
    /// 0 on the last fragment, 1 before it.
    pub eos: u8,
    pub err: u16,
}

/// The 12 wire bytes of a parameter block.
pub open spec fn bsend_params_bytes(p: BSendParams) -> Seq<u8> {
    seq![0x00u8, 0x01, 0x12, 0x08, 0x12, p.tg, p.sub_fun, p.seq, p.id_seq, p.eos] + be16_bytes(p.err)
}

/// What decoding a parameter block from `d` gives; `None` below 12 bytes.
pub open spec fn bsend_params_decode_spec(d: Seq<u8>) -> Option<BSendParams> {
    if d.len() < 12 {
        None
    } else {
        Some(BSendParams { tg: d[5], sub_fun: d[6], seq: d[7], id_seq: d[8], eos: d[9], err: be16_at(d, 10) })
    }
}

impl BSendParams {
    /// Appends the 12 wire bytes.
    pub fn encode(&self, buf: &mut Vec<u8>)
        ensures
            final(buf)@ == old(buf)@ + bsend_params_bytes(*self),
    {
        buf.push(0x00);
        buf.push(0x01);
        buf.push(0x12);
        buf.push(0x08);
        buf.push(0x12);
        buf.push(self.tg);
        buf.push(self.sub_fun);
        buf.push(self.seq);
        buf.push(self.id_seq);
        buf.push(self.eos);
        push_be16(buf, self.err);
        assert(final(buf)@ =~= old(buf)@ + bsend_params_bytes(*self));
    }

    /// Decodes a parameter block from the front of `data`.
    pub fn decode(data: &[u8]) -> (r: Option<BSendParams>)
        ensures
            r == bsend_params_decode_spec(data@),
    {
        if data.len() < BSEND_PARAMS_LEN {
            return None;
        }
        Some(
            BSendParams {
                tg: data[5],
                sub_fun: data[6],
                seq: data[7],
                id_seq: data[8],
                eos: data[9],
                err: read_be16(data, 10),
            },
        )
    }
}

/// The BSend data header: the fragment's length field and the request id.
#[derive(Debug, Clone, Copy, PartialEq, Eq, Structural)]
pub struct BSendDataHdr {
    /// The fragment's bytes plus 8 (plus 2 more on the first fragment).
    pub len: u16,
    pub r_id: u32,
}

/// The 12 wire bytes of a data header.
pub open spec fn bsend_data_hdr_bytes(h: BSendDataHdr) -> Seq<u8> {
    seq![0xFFu8, 0x09] + be16_bytes(h.len) + seq![0x12u8, 0x06, 0x13, 0x00] + be32_bytes(h.r_id)
}

/// What decoding a data header from `d` gives; `None` below 12 bytes.
pub open spec fn bsend_data_hdr_decode_spec(d: Seq<u8>) -> Option<BSendDataHdr> {
    if d.len() < 12 {
        None
    } else {
        Some(BSendDataHdr { len: be16_at(d, 2), r_id: be32_at(d, 8) })
    }
}

impl BSendDataHdr {
    /// Appends the 12 wire bytes.
    pub fn encode(&self, buf: &mut Vec<u8>)
        ensures
            final(buf)@ == old(buf)@ + bsend_data_hdr_bytes(*self),
    {
        buf.push(0xFF);
        buf.push(0x09);
        push_be16(buf, self.len);
        buf.push(0x12);
        buf.push(0x06);
        buf.push(0x13);
        buf.push(0x00);
        push_be32(buf, self.r_id);
        assert(final(buf)@ =~= old(buf)@ + bsend_data_hdr_bytes(*self));
    }

    /// Decodes a data header from the front of `data`.
    pub fn decode(data: &[u8]) -> (r: Option<BSendDataHdr>)
        ensures
            r == bsend_data_hdr_decode_spec(data@),
    {
        if data.len() < BSEND_DATA_HDR_LEN {
            return None;
        }
        Some(BSendDataHdr { len: read_be16(data, 2), r_id: read_be32(data, 8) })
    }
}

/// A parameter block reads back as written, whatever follows it.
pub proof fn lemma_bsend_params_roundtrip(p: BSendParams, rest: Seq<u8>)
    ensures
        bsend_params_decode_spec(bsend_params_bytes(p) + rest) == Some(p),
{
    let s = bsend_params_bytes(p) + rest;
    lemma_be16_roundtrip(p.err);
    assert(be16_at(s, 10) == be16_at(be16_bytes(p.err), 0));
}

/// A data header reads back as written, whatever follows it.
pub proof fn lemma_bsend_data_hdr_roundtrip(h: BSendDataHdr, rest: Seq<u8>)
    ensures
        bsend_data_hdr_decode_spec(bsend_data_hdr_bytes(h) + rest) == Some(h),
{
    let s = bsend_data_hdr_bytes(h) + rest;
    lemma_be16_roundtrip(h.len);
    lemma_be32_roundtrip(h.r_id);
    assert(be16_at(s, 2) == be16_at(be16_bytes(h.len), 0));
    assert(be32_at(s, 8) == be32_at(be32_bytes(h.r_id), 0));
}

} // verus!
