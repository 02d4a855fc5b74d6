//! COTP (ISO 8073 class 0) PDUs carried inside TPKT frames.
use vstd::prelude::*;
use crate::error::ProtoError;
use crate::wire::{be16_at, be16_bytes, copy_range, lemma_be16_roundtrip, push_be16, push_slice, read_be16};

verus! {

pub const CODE_CR: u8 = 0xE0;
pub const CODE_CC: u8 = 0xD0;
pub const CODE_DT: u8 = 0xF0;
pub const CODE_ER: u8 = 0x70;

/// A COTP PDU.
#[derive(Debug, Clone)]
pub enum CotpPdu {
    ConnectRequest { dst_ref: u16, src_ref: u16, rack: u8, slot: u8 },
    ConnectConfirm { dst_ref: u16, src_ref: u16 },
    Data { tpdu_nr: u8, last: bool, payload: Vec<u8> },
    Error { dst_ref: u16, src_ref: u16, reject_cause: u8 },
}

/// The mathematical value of a COTP PDU.
pub enum CotpModel {
    ConnectRequest { dst_ref: u16, src_ref: u16, rack: u8, slot: u8 },
    ConnectConfirm { dst_ref: u16, src_ref: u16 },
    Data { tpdu_nr: u8, last: bool, payload: Seq<u8> },
    Error { dst_ref: u16, src_ref: u16, reject_cause: u8 },
}

impl View for CotpPdu {
    type V = CotpModel;

    open spec fn view(&self) -> CotpModel {
        match self {
            CotpPdu::ConnectRequest { dst_ref, src_ref, rack, slot } => CotpModel::ConnectRequest {
                dst_ref: *dst_ref,
                src_ref: *src_ref,
                rack: *rack,
                slot: *slot,
            },
            CotpPdu::ConnectConfirm { dst_ref, src_ref } => CotpModel::ConnectConfirm {
                dst_ref: *dst_ref,
                src_ref: *src_ref,
            },
            CotpPdu::Data { tpdu_nr, last, payload } => CotpModel::Data {
                tpdu_nr: *tpdu_nr,
                last: *last,
                payload: payload@,
            },
            CotpPdu::Error { dst_ref, src_ref, reject_cause } => CotpModel::Error {
                dst_ref: *dst_ref,
                src_ref: *src_ref,
                reject_cause: *reject_cause,
            },
        }
    }
}

/// The destination TSAP byte of a connect request: rack in bits 5..7, slot in bits 0..4.
pub open spec fn tsap_byte(rack: u8, slot: u8) -> u8 {
    ((rack % 8) * 32 + slot % 32) as u8
}

/// The wire bytes of a COTP PDU.
pub open spec fn cotp_bytes(m: CotpModel) -> Seq<u8> {
    match m {
        CotpModel::ConnectRequest { dst_ref, src_ref, rack, slot } => seq![17u8, CODE_CR]
            + be16_bytes(dst_ref) + be16_bytes(src_ref) + seq![
            0x00u8,
            0xC1,
            2,
            0x01,
            0x00,
            0xC2,
            2,
            0x01,
            tsap_byte(rack, slot),
            0xC0,
            1,
            0x0A,
        ],
        CotpModel::ConnectConfirm { dst_ref, src_ref } => seq![6u8, CODE_CC] + be16_bytes(dst_ref)
            + be16_bytes(src_ref) + seq![0x00u8],
        CotpModel::Data { tpdu_nr, last, payload } => seq![
            2u8,
            CODE_DT,
            ((tpdu_nr % 128) + if last { 128u8 } else { 0u8 }) as u8,
        ] + payload,
        CotpModel::Error { dst_ref, src_ref, reject_cause } => seq![6u8, CODE_ER] + be16_bytes(
            dst_ref,
        ) + be16_bytes(src_ref) + seq![reject_cause],
    }
}

/// Scans the parameter list of a connect request from offset `p`; returns the last
/// destination TSAP byte seen (or `tsap`) and the offset where the scan stopped.
pub open spec fn cr_scan(s: Seq<u8>, p: int, tsap: u8) -> (u8, int)
    decreases s.len() - p,
{
    if p < 0 || s.len() - p < 3 {
        (tsap, p)
    } else if s.len() - (p + 2) < s[p + 1] as int {
        (tsap, p + 2)
    } else {
        let t2 = if s[p] == 0xC2 && s[p + 1] >= 2 {
            s[p + 3]
        } else {
            tsap
        };
        cr_scan(s, p + 2 + s[p + 1] as int, t2)
    }
}

/// What decoding `s` gives: the PDU and the number of bytes consumed.
pub open spec fn cotp_decode_spec(s: Seq<u8>) -> Result<(CotpModel, int), ProtoError> {
    if s.len() < 2 {
        Err(ProtoError::BufferTooShort { need: 2, have: s.len() as usize })
    } else if s[1] == CODE_CR {
        if s.len() < 7 {
            Err(ProtoError::BufferTooShort { need: 7, have: s.len() as usize })
        } else {
            let (t, end) = cr_scan(s, 7, 0);
            Ok(
                (
                    CotpModel::ConnectRequest {
                        dst_ref: be16_at(s, 2),
                        src_ref: be16_at(s, 4),
                        rack: t / 32,
                        slot: t % 32,
                    },
                    end,
                ),
            )
        }
    } else if s[1] == CODE_CC {
        if s.len() < 7 {
            Err(ProtoError::BufferTooShort { need: 7, have: s.len() as usize })
        } else {
            Ok(
                (
                    CotpModel::ConnectConfirm { dst_ref: be16_at(s, 2), src_ref: be16_at(s, 4) },
                    s.len() as int,
                ),
            )
        }
    } else if s[1] == CODE_DT {
        if s.len() < 3 {
            Err(ProtoError::BufferTooShort { need: 3, have: s.len() as usize })
        } else {
            Ok(
                (
                    CotpModel::Data {
                        tpdu_nr: s[2] % 128,
                        last: s[2] >= 128,
                        payload: s.subrange(3, s.len() as int),
                    },
                    s.len() as int,
                ),
            )
        }
    } else if s[1] == CODE_ER {
        if s.len() < 6 {
            Err(ProtoError::BufferTooShort { need: 6, have: s.len() as usize })
        } else {
            Ok(
                (
                    CotpModel::Error {
                        dst_ref: be16_at(s, 2),
                        src_ref: be16_at(s, 4),
                        reject_cause: if s.len() > 6 {
                            s[6]
                        } else {
                            0
                        },
                    },
                    if s.len() > 6 {
                        7
                    } else {
                        6
                    },
                ),
            )
        }
    } else {
        Err(ProtoError::UnsupportedPduType(s[1]))
    }
}

impl CotpPdu {
    /// Appends the wire bytes of the PDU to `buf`.
    pub fn encode(&self, buf: &mut Vec<u8>)
        ensures
            final(buf)@ == old(buf)@ + cotp_bytes(self@),
    {
        match self {
            CotpPdu::ConnectRequest { dst_ref, src_ref, rack, slot } => {
                let dst_tsap: u8 = (*rack % 8) * 32 + *slot % 32;
                buf.push(17);
                buf.push(CODE_CR);
                push_be16(buf, *dst_ref);
                push_be16(buf, *src_ref);
                buf.push(0x00);
                buf.push(0xC1);
                buf.push(2);
                buf.push(0x01);
                buf.push(0x00);
                buf.push(0xC2);
                buf.push(2);
                buf.push(0x01);
                buf.push(dst_tsap);
                buf.push(0xC0);
                buf.push(1);
                buf.push(0x0A);
            },
            CotpPdu::ConnectConfirm { dst_ref, src_ref } => {
                buf.push(6);
                buf.push(CODE_CC);
                push_be16(buf, *dst_ref);
                push_be16(buf, *src_ref);
                buf.push(0x00);
            },
            CotpPdu::Data { tpdu_nr, last, payload } => {
                buf.push(2);
                buf.push(CODE_DT);
                let hi: u8 = if *last { 128 } else { 0 };
                buf.push(*tpdu_nr % 128 + hi);
                push_slice(buf, payload.as_slice());
            },
            CotpPdu::Error { dst_ref, src_ref, reject_cause } => {
                buf.push(6);
                buf.push(CODE_ER);
                push_be16(buf, *dst_ref);
                push_be16(buf, *src_ref);
                buf.push(*reject_cause);
            },
        }
        assert(final(buf)@ =~= old(buf)@ + cotp_bytes(self@));
    }

    /// Decodes a PDU from the front of `buf`; returns it with the number of bytes used.
    pub fn decode(buf: &[u8]) -> (r: Result<(CotpPdu, usize), ProtoError>)
        ensures
            match cotp_decode_spec(buf@) {
                Ok((m, n)) => (r matches Ok((pdu, k)) && pdu@ == m && k == n),
                Err(e) => r == Err::<(CotpPdu, usize), ProtoError>(e),
            },
    {
        let len = buf.len();
        if len < 2 {
            return Err(ProtoError::BufferTooShort { need: 2, have: len });
        }
        let code = buf[1];
        if code == CODE_CR {
            if len < 7 {
                return Err(ProtoError::BufferTooShort { need: 7, have: len });
            }
            let dst_ref = read_be16(buf, 2);
            let src_ref = read_be16(buf, 4);
            let mut tsap: u8 = 0;
            let mut p: usize = 7;
            let mut done = false;
            while !done && len - p >= 3
                invariant
                    len == buf@.len(),
                    7 <= p <= len,
                    done ==> cr_scan(buf@, 7, 0) == (tsap, p as int),
                    !done ==> cr_scan(buf@, p as int, tsap) == cr_scan(buf@, 7, 0),
                decreases len - p,
            {
                let param_code = buf[p];
                let param_len = buf[p + 1] as usize;
                if len - (p + 2) < param_len {
                    p = p + 2;
                    done = true;
                } else {
                    if param_code == 0xC2 && param_len >= 2 {
                        tsap = buf[p + 3];
                    }
                    p = p + 2 + param_len;
                }
            }
            return Ok(
                (CotpPdu::ConnectRequest { dst_ref, src_ref, rack: tsap / 32, slot: tsap % 32 }, p),
            );
        } else if code == CODE_CC {
            if len < 7 {
                return Err(ProtoError::BufferTooShort { need: 7, have: len });
            }
            let dst_ref = read_be16(buf, 2);
            let src_ref = read_be16(buf, 4);
            return Ok((CotpPdu::ConnectConfirm { dst_ref, src_ref }, len));
        } else if code == CODE_DT {
            if len < 3 {
                return Err(ProtoError::BufferTooShort { need: 3, have: len });
            }
            let tpdu_byte = buf[2];
            let payload = copy_range(buf, 3, len);
            return Ok(
                (
                    CotpPdu::Data { tpdu_nr: tpdu_byte % 128, last: tpdu_byte >= 128, payload },
                    len,
                ),
            );
        } else if code == CODE_ER {
            if len < 6 {
                return Err(ProtoError::BufferTooShort { need: 6, have: len });
            }
            let dst_ref = read_be16(buf, 2);
            let src_ref = read_be16(buf, 4);
            let (reject_cause, used) = if len > 6 {
                (buf[6], 7usize)
            } else {
                (0u8, 6usize)
            };
            return Ok((CotpPdu::Error { dst_ref, src_ref, reject_cause }, used));
        } else {
            return Err(ProtoError::UnsupportedPduType(code));
        }
    }
}

/// Decoding the bytes of a PDU gives it back, for every PDU whose fields fit
/// their wire fields (rack below 8, slot below 32, TPDU number below 128).
pub proof fn lemma_cotp_roundtrip(m: CotpModel)
    requires
        m matches CotpModel::ConnectRequest { rack, slot, .. } ==> rack < 8 && slot < 32,
        m matches CotpModel::Data { tpdu_nr, .. } ==> tpdu_nr < 128,
    ensures
        cotp_decode_spec(cotp_bytes(m)) matches Ok((m2, n)) && m2 == m && n == cotp_bytes(
            m,
        ).len(),
{
    let s = cotp_bytes(m);
    match m {
        CotpModel::ConnectRequest { dst_ref, src_ref, rack, slot } => {
            lemma_be16_roundtrip(dst_ref);
            lemma_be16_roundtrip(src_ref);
            assert(be16_at(s, 2) == dst_ref);
            assert(be16_at(s, 4) == src_ref);
            let t = tsap_byte(rack, slot);
            assert(cr_scan(s, 18, t) == (t, 18int));
            assert(cr_scan(s, 15, t) == (t, 18int));
            assert(cr_scan(s, 11, 0) == (t, 18int));
            assert(cr_scan(s, 7, 0) == (t, 18int));
            assert(t / 32 == rack && t % 32 == slot);
        },
        CotpModel::ConnectConfirm { dst_ref, src_ref } => {
            lemma_be16_roundtrip(dst_ref);
            lemma_be16_roundtrip(src_ref);
            assert(be16_at(s, 2) == dst_ref);
            assert(be16_at(s, 4) == src_ref);
        },
        CotpModel::Data { tpdu_nr, last, payload } => {
            assert(s.subrange(3, s.len() as int) =~= payload);
        },
        CotpModel::Error { dst_ref, src_ref, reject_cause } => {
            lemma_be16_roundtrip(dst_ref);
            lemma_be16_roundtrip(src_ref);
            assert(be16_at(s, 2) == dst_ref);
            assert(be16_at(s, 4) == src_ref);
        },
    }
}

} // verus!
