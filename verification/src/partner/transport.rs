//! The partner's ISO-on-TCP framing and the fixed frames of its connection
//! setup, active (it connects) and passive (it is connected to).
use vstd::prelude::*;
use crate::partner::Error;
use crate::wire::{be16_at, be16_bytes, copy_range, push_be16, push_slice, read_be16};

verus! {

/// The frame around an S7 payload: TPKT header with the total length (modulo
/// 65536) and a last COTP data header.
pub open spec fn iso_frame_bytes(payload: Seq<u8>) -> Seq<u8> {
    seq![0x03u8, 0x00] + be16_bytes(((7 + payload.len()) % 65536) as u16) + seq![0x02u8, 0xF0, 0x80]
        + payload
}

/// Wraps an S7 payload in TPKT and COTP data headers.
pub fn iso_frame(payload: &[u8]) -> (r: Vec<u8>)
    ensures
        r@ == iso_frame_bytes(payload@),
{
    let mut buf: Vec<u8> = Vec::new();
    buf.push(0x03);
    buf.push(0x00);
    let low: u64 = (payload.len() % 65536) as u64;
    let total: u16 = ((7 + low) % 65536) as u16;
    proof {
        vstd::arithmetic::div_mod::lemma_add_mod_noop(7, payload@.len() as int, 65536);
    }
    push_be16(&mut buf, total);
    buf.push(0x02);
    buf.push(0xF0);
    buf.push(0x80);
    push_slice(&mut buf, payload);
    assert(buf@ =~= iso_frame_bytes(payload@));
    buf
}

/// The number of bytes after a received TPKT header (its first 4 bytes) that
/// belong to the frame; a frame under 7 bytes is refused.
pub fn iso_rest_len(hdr: &[u8]) -> (r: Result<usize, Error>)
    requires
        hdr@.len() >= 4,
    ensures
        be16_at(hdr@, 2) < 7 ==> r == Err::<usize, Error>(Error::InvalidPdu("frame too short")),
        be16_at(hdr@, 2) >= 7 ==> r == Ok::<usize, Error>((be16_at(hdr@, 2) - 4) as usize),
{
    let total = read_be16(hdr, 2) as usize;
    if total < 7 {
        return Err(Error::InvalidPdu("frame too short"));
    }
    Ok(total - 4)
}

/// The S7 payload of the bytes after a TPKT header: what follows the 3-byte
/// COTP data header.
pub fn iso_payload(rest: &[u8]) -> (r: Result<Vec<u8>, Error>)
    ensures
        rest@.len() < 3 ==> r == Err::<Vec<u8>, Error>(Error::InvalidPdu("missing COTP DT")),
        rest@.len() >= 3 ==> (r matches Ok(v) && v@ == rest@.subrange(3, rest@.len() as int)),
{
    if rest.len() < 3 {
        return Err(Error::InvalidPdu("missing COTP DT"));
    }
    Ok(copy_range(rest, 3, rest.len()))
}

/// The connect request an active partner sends: references 0 and 1, source and
/// destination TSAP 0x0100.
pub open spec fn active_cr_bytes() -> Seq<u8> {
    seq![
        0x03u8, 0x00, 0x00, 0x13, 0x0E, 0xE0, 0x00, 0x00, 0x00, 0x01, 0x00, 0xC1, 0x02, 0x01, 0x00,
        0xC2, 0x02, 0x01, 0x00,
    ]
}

/// The frame of an active partner's connect request.
pub fn active_connect_request() -> (r: Vec<u8>)
    ensures
        r@ == active_cr_bytes(),
{
    let v: Vec<u8> = vec![
        0x03, 0x00, 0x00, 0x13, 0x0E, 0xE0, 0x00, 0x00, 0x00, 0x01, 0x00, 0xC1, 0x02, 0x01, 0x00,
        0xC2, 0x02, 0x01, 0x00,
    ];
    assert(v@ =~= active_cr_bytes());
    v
}

/// Checks the bytes after the TPKT header of the answer to the connect request:
/// a COTP connect confirm.
pub fn check_cc(rest: &[u8]) -> (r: Result<(), Error>)
    ensures
        rest@.len() < 2 || rest@[1] != 0xD0 ==> r == Err::<(), Error>(
            Error::InvalidPdu("expected COTP CC"),
        ),
        rest@.len() >= 2 && rest@[1] == 0xD0 ==> r is Ok,
{
    if rest.len() < 2 || rest[1] != 0xD0 {
        return Err(Error::InvalidPdu("expected COTP CC"));
    }
    Ok(())
}

/// The negotiation request an active partner sends: a job with reference 1
/// proposing queue depths 1 and 1 and PDU size 480.
pub open spec fn active_negotiate_bytes() -> Seq<u8> {
    seq![
        0x03u8, 0x00, 0x00, 0x19, 0x02, 0xF0, 0x80, 0x32, 0x01, 0x00, 0x00, 0x00, 0x01, 0x00, 0x08,
        0x00, 0x00, 0xF0, 0x00, 0x00, 0x01, 0x00, 0x01, 0x01, 0xE0,
    ]
}

/// The frame of an active partner's negotiation request.
pub fn active_negotiate_request() -> (r: Vec<u8>)
    ensures
        r@ == active_negotiate_bytes(),
{
    let v: Vec<u8> = vec![
        0x03, 0x00, 0x00, 0x19, 0x02, 0xF0, 0x80, 0x32, 0x01, 0x00, 0x00, 0x00, 0x01, 0x00, 0x08,
        0x00, 0x00, 0xF0, 0x00, 0x00, 0x01, 0x00, 0x01, 0x01, 0xE0,
    ];
    assert(v@ =~= active_negotiate_bytes());
    v
}

/// The connect confirm a passive partner answers with.
pub open spec fn passive_cc_bytes() -> Seq<u8> {
    seq![
        0x03u8, 0x00, 0x00, 0x13, 0x0E, 0xD0, 0x00, 0x01, 0x00, 0x01, 0x00, 0xC1, 0x02, 0x01, 0x00,
        0xC2, 0x02, 0x01, 0x00,
    ]
}

/// The frame of a passive partner's connect confirm.
pub fn passive_connect_confirm() -> (r: Vec<u8>)
    ensures
        r@ == passive_cc_bytes(),
{
    let v: Vec<u8> = vec![
        0x03, 0x00, 0x00, 0x13, 0x0E, 0xD0, 0x00, 0x01, 0x00, 0x01, 0x00, 0xC1, 0x02, 0x01, 0x00,
        0xC2, 0x02, 0x01, 0x00,
    ];
    assert(v@ =~= passive_cc_bytes());
    v
}

/// The negotiation answer a passive partner sends: AckData without error,
/// queue depths 1 and 1, PDU size 480.
pub open spec fn passive_negotiate_bytes() -> Seq<u8> {
    seq![
        0x03u8, 0x00, 0x00, 0x1B, 0x02, 0xF0, 0x80, 0x32, 0x03, 0x00, 0x00, 0x00, 0x01, 0x00, 0x08,
        0x00, 0x00, 0x00, 0x00, 0xF0, 0x00, 0x00, 0x01, 0x00, 0x01, 0x01, 0xE0,
    ]
}

/// The frame of a passive partner's negotiation answer.
pub fn passive_negotiate_response() -> (r: Vec<u8>)
    ensures
        r@ == passive_negotiate_bytes(),
{
    let v: Vec<u8> = vec![
        0x03, 0x00, 0x00, 0x1B, 0x02, 0xF0, 0x80, 0x32, 0x03, 0x00, 0x00, 0x00, 0x01, 0x00, 0x08,
        0x00, 0x00, 0x00, 0x00, 0xF0, 0x00, 0x00, 0x01, 0x00, 0x01, 0x01, 0xE0,
    ];
    assert(v@ =~= passive_negotiate_bytes());
    v
}

/// The PDU size a passive partner grants.
pub const PASSIVE_PDU_SIZE: u16 = 480;

} // verus!
