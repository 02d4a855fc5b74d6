//! S7CommPlus V1/V2 integrity blocks: `[VLQ(id)][0x20][HMAC-SHA256 digest]`
//! appended to the bytes the digest covers.
use vstd::prelude::*;
use hmac::{Hmac, Mac};
use sha2::Sha256;
use crate::error::{agrees, ProtoError};
use crate::proto::s7commplus::vlq::{
    decode_vlq, encode_vlq, lemma_vlq_roundtrip, vlq_bytes, vlq_decode_spec, vlq_fail_text,
};
use crate::wire::push_slice;

verus! {

pub const DIGEST_MARKER: u8 = 0x20;
pub const DIGEST_LEN: usize = 32;

/// The HMAC-SHA256 of `data` under `key`.
pub uninterp spec fn hmac_sha256(key: Seq<u8>, data: Seq<u8>) -> Seq<u8>;

/// HMAC-SHA256 of `data` under `key`, computed by the `hmac` crate over `sha2`'s
/// SHA-256 (`Hmac::<Sha256>::new_from_slice`, `update`, `finalize`). Trusted: the
/// result is the named digest of the key and the data. `new_from_slice` accepts a
/// key of any length for this MAC, so the call does not fail.
#[verifier::external_body]
pub(crate) fn compute_digest(data: &[u8], key: &[u8]) -> (r: [u8; 32])
    ensures
        r@ == hmac_sha256(key@, data@),
{
    let mut mac = <Hmac<Sha256> as Mac>::new_from_slice(key).expect("HMAC takes keys of any length");
    mac.update(data);
    mac.finalize().into_bytes().into()
}

/// The integrity block for `id` and `digest`.
pub open spec fn integrity_tail(id: u32, digest: Seq<u8>) -> Seq<u8> {
    vlq_bytes(id as nat) + seq![DIGEST_MARKER] + digest
}

/// Appends the integrity block for the bytes already in `buf`.
pub fn append_integrity_v1v2(buf: &mut Vec<u8>, key: &[u8], integrity_id: u32) -> (r: Result<
    (),
    ProtoError,
>)
    ensures
        r is Ok,
        final(buf)@ == old(buf)@ + integrity_tail(integrity_id, hmac_sha256(key@, old(buf)@)),
{
    let digest = compute_digest(buf.as_slice(), key);
    encode_vlq(integrity_id, buf);
    buf.push(DIGEST_MARKER);
    push_slice(buf, digest.as_slice());
    assert(final(buf)@ =~= old(buf)@ + integrity_tail(integrity_id, hmac_sha256(key@, old(buf)@)));
    Ok(())
}

/// What decoding an integrity block at the front of `s` gives: the id, the
/// digest and the number of bytes used.
pub open spec fn integrity_tail_decode_spec(s: Seq<u8>) -> Result<(u32, Seq<u8>, int), ProtoError> {
    match vlq_decode_spec(s, 0) {
        Err(e) => Err(e),
        Ok((id, n)) => {
            if s.len() == n {
                Err(ProtoError::InvalidMagic { expected: DIGEST_MARKER, got: 0 })
            } else if s[n] != DIGEST_MARKER {
                Err(ProtoError::InvalidMagic { expected: DIGEST_MARKER, got: s[n] })
            } else if s.len() - n - 1 < 32 {
                Err(ProtoError::BufferTooShort { need: 32, have: (s.len() - n - 1) as usize })
            } else {
                Ok((id, s.subrange(n + 1, n + 33), n + 33))
            }
        },
    }
}

/// Decodes an integrity block from the front of `buf`; returns the id and the
/// digest with the number of bytes used.
pub fn decode_integrity_tail(buf: &[u8]) -> (r: Result<((u32, [u8; 32]), usize), ProtoError>)
    ensures
        agrees(
            match r {
                Ok(((id, d), n)) => Ok((id, d@, n as int)),
                Err(e) => Err(e),
            },
            integrity_tail_decode_spec(buf@),
        ),
        r matches Err(ProtoError::EncodingFailed(m)) ==> m@ == vlq_fail_text(buf@, 0, 0, 0),
{
    let (id, n) = match decode_vlq(buf) {
        Ok(x) => x,
        Err(e) => {
            return Err(e);
        },
    };
    if buf.len() == n {
        return Err(ProtoError::InvalidMagic { expected: DIGEST_MARKER, got: 0 });
    }
    if buf[n] != DIGEST_MARKER {
        return Err(ProtoError::InvalidMagic { expected: DIGEST_MARKER, got: buf[n] });
    }
    if buf.len() - n - 1 < DIGEST_LEN {
        return Err(ProtoError::BufferTooShort { need: DIGEST_LEN, have: buf.len() - n - 1 });
    }
    let mut digest = [0u8; 32];
    let mut i: usize = 0;
    while i < DIGEST_LEN
        invariant
            i <= 32,
            n + 33 <= buf.len(),
            forall|k: int| 0 <= k < i ==> digest@[k] == buf@[n + 1 + k],
        decreases 32 - i,
    {
        digest[i] = buf[n + 1 + i];
        i = i + 1;
    }
    assert(digest@ =~= buf@.subrange(n + 1, n + 33));
    Ok(((id, digest), n + 33))
}

fn bytes_equal(a: &[u8], b: &[u8]) -> (r: bool)
    ensures
        r == (a@ == b@),
{
    if a.len() != b.len() {
        return false;
    }
    let mut i: usize = 0;
    while i < a.len()
        invariant
            a@.len() == b@.len(),
            i <= a@.len(),
            forall|k: int| 0 <= k < i ==> a@[k] == b@[k],
        decreases a@.len() - i,
    {
        if a[i] != b[i] {
            return false;
        }
        i = i + 1;
    }
    assert(a@ =~= b@);
    true
}

/// The outcome of looking for an integrity block whose id takes `k` bytes or
/// more (up to five): the first width whose marker sits in place and whose
/// digest matches the HMAC of the bytes before the block decides.
pub open spec fn verify_from(f: Seq<u8>, key: Seq<u8>, k: nat) -> Result<u32, ProtoError>
    decreases 6 - k,
{
    if k > 5 || k == 0 {
        Err(ProtoError::IntegrityFailure)
    } else if f.len() < k + 33 {
        verify_from(f, key, k + 1)
    } else {
        let d = f.len() - (k + 33);
        if f[d + k] != DIGEST_MARKER {
            verify_from(f, key, k + 1)
        } else if f.subrange(d + k + 1, f.len() as int) != hmac_sha256(key, f.subrange(0, d)) {
            verify_from(f, key, k + 1)
        } else {
            match vlq_decode_spec(f.subrange(d, d + k), 0) {
                Ok((id, _)) => Ok(id),
                Err(e) => Err(e),
            }
        }
    }
}

/// The id width, from `k` up to five, that decides `verify_from`; 0 when none does.
pub open spec fn verify_width(f: Seq<u8>, key: Seq<u8>, k: nat) -> nat
    decreases 6 - k,
{
    if k > 5 || k == 0 {
        0
    } else if f.len() < k + 33 {
        verify_width(f, key, k + 1)
    } else {
        let d = f.len() - (k + 33);
        if f[d + k] != DIGEST_MARKER {
            verify_width(f, key, k + 1)
        } else if f.subrange(d + k + 1, f.len() as int) != hmac_sha256(key, f.subrange(0, d)) {
            verify_width(f, key, k + 1)
        } else {
            k
        }
    }
}

/// Checks the integrity block at the end of `frame` and returns its id.
pub fn verify_v1v2(frame: &[u8], key: &[u8]) -> (r: Result<u32, ProtoError>)
    ensures
        agrees(r, verify_from(frame@, key@, 1)),
        r matches Err(ProtoError::EncodingFailed(m)) ==> {
            let w = verify_width(frame@, key@, 1);
            let d = frame@.len() - (w + 33);
            m@ == vlq_fail_text(frame@.subrange(d, d + w), 0, 0, 0)
        },
{
    let mut k: usize = 1;
    while k <= 5
        invariant
            1 <= k <= 6,
            verify_from(frame@, key@, 1) == verify_from(frame@, key@, k as nat),
            verify_width(frame@, key@, 1) == verify_width(frame@, key@, k as nat),
        decreases 6 - k,
    {
        let tail_len = k + 1 + DIGEST_LEN;
        if frame.len() >= tail_len {
            let data_end = frame.len() - tail_len;
            if frame[data_end + k] == DIGEST_MARKER {
                let expected = compute_digest(&frame[0..data_end], key);
                if bytes_equal(&frame[data_end + k + 1..frame.len()], expected.as_slice()) {
                    let id_bytes = &frame[data_end..data_end + k];
                    return match decode_vlq(id_bytes) {
                        Ok((id, _)) => Ok(id),
                        Err(e) => Err(e),
                    };
                }
            }
        }
        k = k + 1;
    }
    Err(ProtoError::IntegrityFailure)
}

/// Reading an integrity block gives back its id and its digest, and uses
/// exactly its bytes, whatever follows them.
pub proof fn lemma_integrity_tail_roundtrip(id: u32, digest: Seq<u8>, rest: Seq<u8>)
    requires
        digest.len() == 32,
    ensures
        integrity_tail_decode_spec(integrity_tail(id, digest) + rest) == Ok::<
            (u32, Seq<u8>, int),
            ProtoError,
        >((id, digest, vlq_bytes(id as nat).len() + 33int)),
{
    let v = vlq_bytes(id as nat);
    let s = integrity_tail(id, digest) + rest;
    assert(s =~= v + (seq![DIGEST_MARKER] + digest + rest));
    lemma_vlq_roundtrip(id, seq![DIGEST_MARKER] + digest + rest);
    assert(s.subrange(v.len() + 1int, v.len() + 33int) =~= digest);
}

proof fn lemma_verify_from_width(data: Seq<u8>, key: Seq<u8>, id: u32, k: nat)
    requires
        hmac_sha256(key, data).len() == 32,
        1 <= k <= vlq_bytes(id as nat).len(),
        forall|j: int|
            0 < j < vlq_bytes(id as nat).len() ==> hmac_sha256(
                key,
                data + vlq_bytes(id as nat).subrange(0, j),
            ) != hmac_sha256(key, data),
    ensures
        verify_from(data + integrity_tail(id, hmac_sha256(key, data)), key, k) == Ok::<
            u32,
            ProtoError,
        >(id),
    decreases vlq_bytes(id as nat).len() - k,
{
    let v = vlq_bytes(id as nat);
    let digest = hmac_sha256(key, data);
    let f = data + integrity_tail(id, digest);
    lemma_vlq_roundtrip(id, Seq::empty());
    let l = v.len() as int;
    let d = f.len() - (k + 33);
    assert(d == data.len() + l - k);
    assert(f[d + k] == DIGEST_MARKER);
    assert(f.subrange(d + k + 1, f.len() as int) =~= digest);
    assert(f.subrange(0, d) =~= data + v.subrange(0, l - k));
    if k < l {
        assert(hmac_sha256(key, data + v.subrange(0, l - k)) != digest);
        lemma_verify_from_width(data, key, id, k + 1);
    } else {
        assert(f.subrange(0, d) =~= data);
        assert(f.subrange(d, d + k) =~= v + Seq::<u8>::empty());
    }
}

/// Checking the block that `append_integrity_v1v2` adds gives back its id, on
/// every input where a shorter id width does not also find a matching digest
/// (which would take an HMAC collision).
pub proof fn lemma_integrity_roundtrip(data: Seq<u8>, key: Seq<u8>, id: u32)
    requires
        hmac_sha256(key, data).len() == 32,
        forall|j: int|
            0 < j < vlq_bytes(id as nat).len() ==> hmac_sha256(
                key,
                data + vlq_bytes(id as nat).subrange(0, j),
            ) != hmac_sha256(key, data),
    ensures
        verify_from(data + integrity_tail(id, hmac_sha256(key, data)), key, 1) == Ok::<
            u32,
            ProtoError,
        >(id),
{
    lemma_vlq_roundtrip(id, Seq::empty());
    lemma_verify_from_width(data, key, id, 1);
}

} // verus!
