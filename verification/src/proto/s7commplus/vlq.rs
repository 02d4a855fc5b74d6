//! Siemens variable-length quantities: 7 payload bits per byte, most
//! significant group first, bit 7 set on every byte but the last.
use vstd::prelude::*;
use crate::error::{agrees, encoding_failed, text, ProtoError};

verus! {

/// The bytes that carry the 7-bit groups of `q`, most significant first, each
/// with its continuation bit set; nothing for `q == 0`.
pub open spec fn vlq_high(q: nat) -> Seq<u8>
    decreases q,
{
    if q == 0 {
        Seq::empty()
    } else {
        vlq_high(q / 128) + seq![(0x80 + q % 128) as u8]
    }
}

/// The encoding of `v`: the groups above the lowest one, then the lowest group
/// without continuation bit.
pub open spec fn vlq_bytes(v: nat) -> Seq<u8> {
    vlq_high(v / 128) + seq![(v % 128) as u8]
}

/// Decoding from `s[p..]` after `n` bytes have been read into `acc`: the value
/// and the number of bytes used. At most five bytes are read, and the value must
/// fit in 32 bits.
pub open spec fn vlq_step(s: Seq<u8>, p: int, n: nat, acc: int) -> Result<(u32, int), ProtoError>
    decreases 5 - n,
{
    if p + n >= s.len() {
        Err(ProtoError::BufferTooShort { need: 1, have: 0 })
    } else {
        let b = s[p + n];
        let acc2 = acc * 128 + b % 128;
        if acc2 > u32::MAX {
            Err(encoding_failed())
        } else if b < 128 {
            Ok((acc2 as u32, n + 1int))
        } else if n + 1 >= 5 {
            Err(encoding_failed())
        } else {
            vlq_step(s, p, n + 1, acc2)
        }
    }
}

/// The text of the error that decoding from `s[p..]` fails with when the value
/// does not fit in 32 bits or runs past five bytes (empty otherwise).
pub open spec fn vlq_fail_text(s: Seq<u8>, p: int, n: nat, acc: int) -> Seq<char>
    decreases 5 - n,
{
    if p + n >= s.len() {
        Seq::<char>::empty()
    } else {
        let b = s[p + n];
        let acc2 = acc * 128 + b % 128;
        if acc2 > u32::MAX {
            "VLQ value exceeds u32"@
        } else if b < 128 {
            Seq::<char>::empty()
        } else if n + 1 >= 5 {
            "VLQ overflow: more than 5 bytes"@
        } else {
            vlq_fail_text(s, p, n + 1, acc2)
        }
    }
}

/// What decoding a quantity at `s[p..]` gives.
pub open spec fn vlq_decode_spec(s: Seq<u8>, p: int) -> Result<(u32, int), ProtoError> {
    vlq_step(s, p, 0, 0)
}

fn push_vlq_high(buf: &mut Vec<u8>, q: u32)
    ensures
        final(buf)@ == old(buf)@ + vlq_high(q as nat),
    decreases q,
{
    if q == 0 {
        assert(final(buf)@ =~= old(buf)@ + vlq_high(q as nat));
        return;
    }
    push_vlq_high(buf, q / 128);
    buf.push((0x80 + q % 128) as u8);
    assert(final(buf)@ =~= old(buf)@ + vlq_high(q as nat));
}

/// Appends the variable-length encoding of `value`.
pub fn encode_vlq(value: u32, buf: &mut Vec<u8>)
    ensures
        final(buf)@ == old(buf)@ + vlq_bytes(value as nat),
{
    push_vlq_high(buf, value / 128);
    buf.push((value % 128) as u8);
    assert(final(buf)@ =~= old(buf)@ + vlq_bytes(value as nat));
}

/// Decodes a quantity at `buf[pos..]`; returns the value and the number of bytes
/// it took.
pub fn decode_vlq_at(buf: &[u8], pos: usize) -> (r: Result<(u32, usize), ProtoError>)
    requires
        pos <= buf@.len(),
    ensures
        agrees(
            match r {
                Ok((v, n)) => Ok((v, n as int)),
                Err(e) => Err(e),
            },
            vlq_decode_spec(buf@, pos as int),
        ),
        r matches Ok((_, n)) ==> 1 <= n <= 5 && pos + n <= buf@.len(),
        r matches Err(ProtoError::EncodingFailed(m)) ==> m@ == vlq_fail_text(buf@, pos as int, 0, 0),
{
    let mut acc: u64 = 0;
    let mut n: usize = 0;
    loop
        invariant
            n < 5,
            acc <= u32::MAX,
            pos <= buf@.len(),
            vlq_step(buf@, pos as int, 0, 0) == vlq_step(buf@, pos as int, n as nat, acc as int),
            vlq_fail_text(buf@, pos as int, 0, 0) == vlq_fail_text(buf@, pos as int, n as nat, acc as int),
        decreases 5 - n,
    {
        if buf.len() - pos <= n {
            return Err(ProtoError::BufferTooShort { need: 1, have: 0 });
        }
        let b = buf[pos + n];
        let acc2: u64 = acc * 128 + (b % 128) as u64;
        if acc2 > 0xFFFF_FFFF {
            return Err(ProtoError::EncodingFailed(text("VLQ value exceeds u32")));
        }
        if b < 128 {
            return Ok((acc2 as u32, n + 1));
        }
        if n + 1 >= 5 {
            return Err(ProtoError::EncodingFailed(text("VLQ overflow: more than 5 bytes")));
        }
        acc = acc2;
        n = n + 1;
    }
}

/// Decodes a quantity at the front of `buf`; returns the value and the number of
/// bytes it took.
pub fn decode_vlq(buf: &[u8]) -> (r: Result<(u32, usize), ProtoError>)
    ensures
        agrees(
            match r {
                Ok((v, n)) => Ok((v, n as int)),
                Err(e) => Err(e),
            },
            vlq_decode_spec(buf@, 0),
        ),
        r matches Ok((_, n)) ==> 1 <= n <= 5 && n <= buf@.len(),
        r matches Err(ProtoError::EncodingFailed(m)) ==> m@ == vlq_fail_text(buf@, 0, 0, 0),
{
    decode_vlq_at(buf, 0)
}

proof fn lemma_vlq_high_len(q: nat)
    requires
        q < 0x1000_0000,
    ensures
        vlq_high(q).len() <= 4,
        q < 0x20_0000 ==> vlq_high(q).len() <= 3,
        q < 0x4000 ==> vlq_high(q).len() <= 2,
        q < 0x80 ==> vlq_high(q).len() <= 1,
    decreases q,
{
    if q > 0 {
        lemma_vlq_high_len(q / 128);
    }
}

/// Reading the continuation groups of `q` leaves `q` in the accumulator.
proof fn lemma_vlq_high_reads(q: nat, t: Seq<u8>)
    requires
        q < 0x1000_0000,
    ensures
        vlq_step(vlq_high(q) + t, 0, 0, 0) == vlq_step(vlq_high(q) + t, 0, vlq_high(q).len(), q as int),
    decreases q,
{
    if q > 0 {
        let q1 = q / 128;
        let last = seq![(0x80 + q % 128) as u8];
        let s = vlq_high(q) + t;
        assert(s =~= vlq_high(q1) + (last + t));
        lemma_vlq_high_reads(q1, last + t);
        lemma_vlq_high_len(q);
        let l1 = vlq_high(q1).len();
        assert(s[l1 as int] == (0x80 + q % 128) as u8);
        assert(q1 * 128 + q % 128 == q);
    }
}

/// Decoding the encoding of a 32-bit value gives it back, and uses exactly its
/// bytes, whatever follows them.
pub proof fn lemma_vlq_roundtrip(v: u32, rest: Seq<u8>)
    ensures
        vlq_decode_spec(vlq_bytes(v as nat) + rest, 0) == Ok::<(u32, int), ProtoError>(
            (v, vlq_bytes(v as nat).len() as int),
        ),
        1 <= vlq_bytes(v as nat).len() <= 5,
{
    let q = v as nat / 128;
    let low = seq![(v as nat % 128) as u8];
    let s = vlq_bytes(v as nat) + rest;
    assert(s =~= vlq_high(q) + (low + rest));
    lemma_vlq_high_reads(q, low + rest);
    lemma_vlq_high_len(q);
    let l = vlq_high(q).len();
    assert(s[l as int] == (v as nat % 128) as u8);
    assert(q * 128 + v as nat % 128 == v);
}

} // verus!
