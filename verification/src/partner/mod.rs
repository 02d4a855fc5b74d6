//! S7 partner (BSend/BRecv): how a block of data is cut into user-data
//! fragments, how each fragment is framed and acknowledged, and how the
//! receiving side takes the fragments apart again.
pub mod counters;
pub mod proto;
pub mod transport;

use vstd::prelude::*;
use crate::partner::proto::{
    bsend_data_hdr_bytes, bsend_data_hdr_decode_spec, bsend_params_bytes, bsend_params_decode_spec,
    lemma_bsend_data_hdr_roundtrip, lemma_bsend_params_roundtrip, BSendDataHdr, BSendParams,
    BSEND_DATA_HDR_LEN, BSEND_PARAMS_LEN, GR_BSEND, GR_BSEND_ACK, S7_HDR_LEN,
};
use crate::wire::{be16_at, be16_bytes, copy_range, push_be16, push_slice, read_be16};

verus! {

/// The most bytes one BSend carries.
pub const MAX_BSEND_SIZE: usize = 65536;

/// Errors of the partner protocol (the transport's own I/O errors are reported
/// by the caller that performs the I/O).
#[derive(Debug, Clone, Copy)]
pub enum Error {
    /// A PDU that does not have the expected shape.
    InvalidPdu(&'static str),
    /// The remote refused a BSend with this error code.
    SendRefused(u16),
    /// No fragment arrived in time.
    RecvTimeout,
    /// The partner has no connection.
    NotConnected,
}

/// Connection state of a partner.
#[derive(Debug, Clone, Copy, PartialEq, Eq, Structural)]
pub enum PartnerStatus {
    Disconnected,
    Connected,
}

/// The 10 bytes of an S7 user-data header.
pub open spec fn userdata_header_bytes(pdu_ref: u16, param_len: u16, data_len: u16) -> Seq<u8> {
    seq![0x32u8, 0x07, 0x00, 0x00] + be16_bytes(pdu_ref) + be16_bytes(param_len) + be16_bytes(data_len)
}

/// Appends an S7 user-data header.
pub fn encode_s7_userdata_header(buf: &mut Vec<u8>, pdu_ref: u16, param_len: u16, data_len: u16)
    ensures
        final(buf)@ == old(buf)@ + userdata_header_bytes(pdu_ref, param_len, data_len),
{
    buf.push(0x32);
    buf.push(0x07);
    buf.push(0x00);
    buf.push(0x00);
    push_be16(buf, pdu_ref);
    push_be16(buf, param_len);
    push_be16(buf, data_len);
    assert(final(buf)@ =~= old(buf)@ + userdata_header_bytes(pdu_ref, param_len, data_len));
}

/// What the parameter block of a BSend frame gives: it follows the 10-byte
/// header; a frame too short for it is refused.
pub open spec fn bsend_params_spec(frame: Seq<u8>) -> Result<BSendParams, Error> {
    if frame.len() < 22 {
        Err(Error::InvalidPdu("frame too short for BSend params"))
    } else {
        Ok(bsend_params_decode_spec(frame.subrange(10, frame.len() as int))->0)
    }
}

/// Reads the parameter block of a BSend frame.
pub fn parse_s7_bsend_params(frame: &[u8]) -> (r: Result<BSendParams, Error>)
    ensures
        r == bsend_params_spec(frame@),
{
    if frame.len() < S7_HDR_LEN + BSEND_PARAMS_LEN {
        return Err(Error::InvalidPdu("frame too short for BSend params"));
    }
    match BSendParams::decode(&frame[S7_HDR_LEN..frame.len()]) {
        Some(p) => Ok(p),
        None => Err(Error::InvalidPdu("malformed BSend params")),
    }
}

/// The bytes per fragment for a PDU size: the PDU less the headers and 2, at
/// least 1.
pub open spec fn max_slice(pdu_size: u16) -> int {
    if pdu_size > 37 {
        pdu_size - 36
    } else {
        1
    }
}

/// `plan` cuts `len` bytes into consecutive fragments of `m` bytes (the last
/// one shorter); no fragments for no bytes.
pub open spec fn is_slice_plan(plan: Seq<(usize, usize)>, len: nat, m: int) -> bool {
    &&& plan.len() == 0 <==> len == 0
    &&& forall|i: int| 0 <= i < plan.len() ==> (#[trigger] plan[i]).0 == i * m
    &&& forall|i: int|
        0 <= i < plan.len() ==> (#[trigger] plan[i]).1 == (if plan[i].0 + m < len { plan[i].0 + m } else {
            len as int
        })
    &&& forall|i: int| 0 <= i < plan.len() ==> (#[trigger] plan[i]).0 < len
    &&& plan.len() > 0 ==> plan.last().1 == len
}

/// Cuts `len` bytes of a BSend into fragments for the given PDU size.
pub fn bsend_slices(len: usize, pdu_size: u16) -> (plan: Vec<(usize, usize)>)
    ensures
        is_slice_plan(plan@, len as nat, max_slice(pdu_size)),
{
    let m: usize = if pdu_size > 37 {
        (pdu_size - 36) as usize
    } else {
        1
    };
    let mut plan: Vec<(usize, usize)> = Vec::new();
    let mut offset: usize = 0;
    while offset < len
        invariant
            m == max_slice(pdu_size),
            m >= 1,
            offset <= len,
            offset == plan@.len() * m || offset == len,
            offset < len ==> offset == plan@.len() * m,
            plan@.len() > 0 ==> plan@.last().1 == offset,
            plan@.len() == 0 ==> offset == 0,
            forall|i: int| 0 <= i < plan@.len() ==> (#[trigger] plan@[i]).0 == i * m,
            forall|i: int|
                0 <= i < plan@.len() ==> (#[trigger] plan@[i]).1 == (if plan@[i].0 + m < len {
                    plan@[i].0 + m
                } else {
                    len as int
                }),
            forall|i: int| 0 <= i < plan@.len() ==> (#[trigger] plan@[i]).0 < len,
        decreases len - offset,
    {
        let end = if len - offset > m {
            offset + m
        } else {
            len
        };
        let ghost before = plan@;
        plan.push((offset, end));
        assert forall|i: int| 0 <= i < plan@.len() implies (#[trigger] plan@[i]).0 == i * m by {
            if i < before.len() {
                assert(plan@[i] == before[i]);
            }
        }
        assert forall|i: int|
            0 <= i < plan@.len() implies (#[trigger] plan@[i]).1 == (if plan@[i].0 + m < len {
                plan@[i].0 + m
            } else {
                len as int
            }) by {
            if i < before.len() {
                assert(plan@[i] == before[i]);
            }
        }
        assert forall|i: int| 0 <= i < plan@.len() implies (#[trigger] plan@[i]).0 < len by {
            if i < before.len() {
                assert(plan@[i] == before[i]);
            }
        }
        assert((plan@.len() - 1) * m + m == plan@.len() * m) by (nonlinear_arith);
        offset = end;
    }
    plan
}

/// Checks the size of a block to send: at most 64 KiB.
pub fn bsend_check(len: usize) -> (r: Result<(), Error>)
    ensures
        len <= MAX_BSEND_SIZE ==> r is Ok,
        len > MAX_BSEND_SIZE ==> r == Err::<(), Error>(Error::InvalidPdu("data exceeds 64 kB BSend limit")),
{
    if len > MAX_BSEND_SIZE {
        return Err(Error::InvalidPdu("data exceeds 64 kB BSend limit"));
    }
    Ok(())
}

/// One BSend fragment on the wire: the user-data header, the parameter block
/// (group 0x46, sequence numbers, end-of-sequence flag), the data header with
/// the fragment's length and the request id, the total length on the first
/// fragment, and the fragment's bytes.
pub open spec fn bsend_frame_spec(
    pdu_ref: u16,
    seq: u8,
    id_seq: u8,
    r_id: u32,
    total: nat,
    slice: Seq<u8>,
    first: bool,
    last: bool,
) -> Seq<u8> {
    let extra: nat = if first {
        2
    } else {
        0
    };
    userdata_header_bytes(pdu_ref, 12, ((12 + slice.len() + extra) % 65536) as u16) + bsend_params_bytes(
        BSendParams {
            tg: GR_BSEND,
            sub_fun: 0x01,
            seq,
            id_seq,
            eos: if last {
                0
            } else {
                1
            },
            err: 0,
        },
    ) + bsend_data_hdr_bytes(BSendDataHdr { len: ((slice.len() + 8 + extra) % 65536) as u16, r_id }) + (if first {
        be16_bytes((total % 65536) as u16)
    } else {
        Seq::<u8>::empty()
    }) + slice
}

/// Builds one BSend fragment: bytes `from..to` of `data`.
pub fn bsend_frame(
    pdu_ref: u16,
    seq: u8,
    id_seq: u8,
    r_id: u32,
    data: &[u8],
    from: usize,
    to: usize,
) -> (r: Vec<u8>)
    requires
        from < to <= data@.len() <= MAX_BSEND_SIZE,
    ensures
        r@ == bsend_frame_spec(
            pdu_ref,
            seq,
            id_seq,
            r_id,
            data@.len(),
            data@.subrange(from as int, to as int),
            from == 0,
            to == data@.len(),
        ),
{
    let first = from == 0;
    let last = to == data.len();
    let n = to - from;
    let extra: usize = if first {
        2
    } else {
        0
    };
    let mut frame: Vec<u8> = Vec::new();
    encode_s7_userdata_header(&mut frame, pdu_ref, 12, ((12 + n + extra) % 65536) as u16);
    let eos: u8 = if last {
        0
    } else {
        1
    };
    BSendParams { tg: GR_BSEND, sub_fun: 0x01, seq, id_seq, eos, err: 0 }.encode(&mut frame);
    let ghost f1 = frame@;
    BSendDataHdr { len: ((n + 8 + extra) % 65536) as u16, r_id }.encode(&mut frame);
    let ghost f2 = frame@;
    if first {
        push_be16(&mut frame, (data.len() % 65536) as u16);
    }
    let ghost f3 = frame@;
    push_slice(&mut frame, &data[from..to]);
    assert(frame@ =~= bsend_frame_spec(
        pdu_ref,
        seq,
        id_seq,
        r_id,
        data@.len(),
        data@.subrange(from as int, to as int),
        first,
        last,
    ));
    frame
}

/// What the acknowledgement of a fragment gives: its sequence number, or the
/// refusal when it carries an error code.
pub open spec fn bsend_ack_spec(resp: Seq<u8>) -> Result<u8, Error> {
    match bsend_params_spec(resp) {
        Err(e) => Err(e),
        Ok(p) => if p.err != 0 {
            Err(Error::SendRefused(p.err))
        } else {
            Ok(p.seq)
        },
    }
}

/// Reads the acknowledgement of a fragment.
pub fn bsend_ack(resp: &[u8]) -> (r: Result<u8, Error>)
    ensures
        r == bsend_ack_spec(resp@),
        bsend_params_spec(resp@) matches Ok(p) ==> (p.err != 0 ==> r == Err::<u8, Error>(
            Error::SendRefused(p.err),
        )) && (p.err == 0 ==> r == Ok::<u8, Error>(p.seq)),
{
    let p = match parse_s7_bsend_params(resp) {
        Ok(p) => p,
        Err(e) => {
            return Err(e);
        },
    };
    if p.err != 0 {
        return Err(Error::SendRefused(p.err));
    }
    Ok(p.seq)
}

/// What a received fragment gives: the request id, its bytes (after the total
/// length on the first fragment), and whether it is the last one.
pub open spec fn brecv_fragment_spec(frame: Seq<u8>, first: bool) -> Result<(u32, Seq<u8>, bool), Error> {
    match bsend_params_spec(frame) {
        Err(e) => Err(e),
        Ok(p) => if p.tg != GR_BSEND {
            Err(Error::InvalidPdu("expected BSend PDU"))
        } else if frame.len() < 34 {
            Err(Error::InvalidPdu("frame too short for BSend data"))
        } else {
            let dh = bsend_data_hdr_decode_spec(frame.subrange(22, frame.len() as int))->0;
            let extra: int = if first {
                2
            } else {
                0
            };
            let start = 34 + extra;
            let n: int = if dh.len >= 8 + extra {
                dh.len - 8 - extra
            } else {
                0
            };
            if frame.len() < start + n {
                Err(Error::InvalidPdu("BSend frame data truncated"))
            } else {
                Ok((dh.r_id, frame.subrange(start, start + n), p.eos == 0))
            }
        },
    }
}

/// Takes a received fragment apart: request id, bytes, and whether it is the last.
pub fn brecv_fragment(frame: &[u8], first: bool) -> (r: Result<(u32, Vec<u8>, bool), Error>)
    ensures
        match brecv_fragment_spec(frame@, first) {
            Ok((id, d, last)) => (r matches Ok((id2, d2, last2)) && id2 == id && d2@ == d && last2 == last),
            Err(e) => r == Err::<(u32, Vec<u8>, bool), Error>(e),
        },
{
    let p = match parse_s7_bsend_params(frame) {
        Ok(p) => p,
        Err(e) => {
            return Err(e);
        },
    };
    if p.tg != GR_BSEND {
        return Err(Error::InvalidPdu("expected BSend PDU"));
    }
    if frame.len() < S7_HDR_LEN + BSEND_PARAMS_LEN + BSEND_DATA_HDR_LEN {
        return Err(Error::InvalidPdu("frame too short for BSend data"));
    }
    let dh = match BSendDataHdr::decode(&frame[22..frame.len()]) {
        Some(h) => h,
        None => {
            return Err(Error::InvalidPdu("bad BSend data header"));
        },
    };
    let extra: usize = if first {
        2
    } else {
        0
    };
    let start = 34 + extra;
    let n: usize = if dh.len as usize >= 8 + extra {
        dh.len as usize - 8 - extra
    } else {
        0
    };
    if frame.len() < start + n {
        return Err(Error::InvalidPdu("BSend frame data truncated"));
    }
    Ok((dh.r_id, copy_range(frame, start, start + n), p.eos == 0))
}

/// The acknowledgement of a received fragment: group 0x86 and its sequence number.
pub open spec fn brecv_ack_spec(pdu_ref: u16, seq: u8) -> Seq<u8> {
    userdata_header_bytes(pdu_ref, 12, 4) + bsend_params_bytes(
        BSendParams { tg: GR_BSEND_ACK, sub_fun: 0x01, seq, id_seq: 0, eos: 0, err: 0 },
    ) + seq![0x0Au8, 0x00, 0x00, 0x00]
}

/// Builds the acknowledgement of a received fragment.
pub fn brecv_ack(pdu_ref: u16, seq: u8) -> (r: Vec<u8>)
    ensures
        r@ == brecv_ack_spec(pdu_ref, seq),
{
    let mut ack: Vec<u8> = Vec::new();
    encode_s7_userdata_header(&mut ack, pdu_ref, 12, 4);
    BSendParams { tg: GR_BSEND_ACK, sub_fun: 0x01, seq, id_seq: 0, eos: 0, err: 0 }.encode(&mut ack);
    ack.push(0x0A);
    ack.push(0x00);
    ack.push(0x00);
    ack.push(0x00);
    assert(ack@ =~= brecv_ack_spec(pdu_ref, seq));
    ack
}

/// The PDU size a partner's negotiation answer grants (byte 18 on); 0 means
/// the default 480; an answer under 20 bytes is refused.
pub fn partner_pdu_size(payload: &[u8]) -> (r: Result<u16, Error>)
    ensures
        payload@.len() < 20 ==> r == Err::<u16, Error>(Error::InvalidPdu("negotiate response too short")),
        payload@.len() >= 20 ==> r == Ok::<u16, Error>(
            if be16_at(payload@, 18) == 0 {
                480
            } else {
                be16_at(payload@, 18)
            },
        ),
{
    if payload.len() < 20 {
        return Err(Error::InvalidPdu("negotiate response too short"));
    }
    let p = read_be16(payload, 18);
    if p == 0 {
        Ok(480)
    } else {
        Ok(p)
    }
}

/// A fragment built for a block reads back, on the receiving side, as the
/// request id, the fragment's bytes, and whether it is the last: when the
/// fragment and the block are not longer than a BSend carries.
pub proof fn lemma_fragment_roundtrip(
    pdu_ref: u16,
    seq: u8,
    id_seq: u8,
    r_id: u32,
    total: nat,
    slice: Seq<u8>,
    first: bool,
    last: bool,
)
    requires
        slice.len() + 10 <= u16::MAX,
    ensures
        brecv_fragment_spec(bsend_frame_spec(pdu_ref, seq, id_seq, r_id, total, slice, first, last), first)
            == Ok::<(u32, Seq<u8>, bool), Error>((r_id, slice, last)),
{
    let extra: nat = if first {
        2
    } else {
        0
    };
    let f = bsend_frame_spec(pdu_ref, seq, id_seq, r_id, total, slice, first, last);
    let p = BSendParams { tg: GR_BSEND, sub_fun: 0x01, seq, id_seq, eos: if last { 0 } else { 1 }, err: 0 };
    let h = BSendDataHdr { len: ((slice.len() + 8 + extra) % 65536) as u16, r_id };
    let tail = if first {
        be16_bytes((total % 65536) as u16)
    } else {
        Seq::<u8>::empty()
    };
    assert(f.subrange(10, f.len() as int) =~= bsend_params_bytes(p) + (bsend_data_hdr_bytes(h) + tail + slice));
    lemma_bsend_params_roundtrip(p, bsend_data_hdr_bytes(h) + tail + slice);
    assert(f.subrange(22, f.len() as int) =~= bsend_data_hdr_bytes(h) + (tail + slice));
    lemma_bsend_data_hdr_roundtrip(h, tail + slice);
    assert(f.len() == 34 + extra + slice.len());
    assert(f.subrange(34 + extra as int, 34 + extra as int + slice.len()) =~= slice);
}

/// The fragments of a plan put back together, in order, give the block.
pub open spec fn joined(data: Seq<u8>, plan: Seq<(usize, usize)>, k: int) -> Seq<u8>
    decreases k,
{
    if k <= 0 {
        Seq::empty()
    } else {
        joined(data, plan, k - 1) + data.subrange(plan[k - 1].0 as int, plan[k - 1].1 as int)
    }
}

/// Putting the fragments of a slice plan back together, in order, gives the
/// whole block.
pub proof fn lemma_slices_rejoin(data: Seq<u8>, plan: Seq<(usize, usize)>, m: int)
    requires
        m >= 1,
        is_slice_plan(plan, data.len(), m),
    ensures
        joined(data, plan, plan.len() as int) == data,
{
    lemma_joined_prefix(data, plan, m, plan.len() as int);
    if plan.len() > 0 {
        assert(data.subrange(0, plan.last().1 as int) =~= data);
    } else {
        assert(data =~= Seq::<u8>::empty());
    }
}

proof fn lemma_joined_prefix(data: Seq<u8>, plan: Seq<(usize, usize)>, m: int, k: int)
    requires
        m >= 1,
        is_slice_plan(plan, data.len(), m),
        0 <= k <= plan.len(),
    ensures
        k > 0 ==> joined(data, plan, k) == data.subrange(0, plan[k - 1].1 as int),
        k == 0 ==> joined(data, plan, k) == Seq::<u8>::empty(),
    decreases k,
{
    if k > 0 {
        lemma_joined_prefix(data, plan, m, k - 1);
        let a = plan[k - 1];
        assert(a.0 <= a.1 <= data.len());
        if k > 1 {
            let b = plan[k - 2];
            assert(b.0 == (k - 2) * m);
            assert(a.0 == (k - 1) * m);
            assert((k - 2) * m + m == (k - 1) * m) by (nonlinear_arith);
            assert(b.1 == a.0);
        } else {
            assert(a.0 == 0);
        }
        assert(joined(data, plan, k) =~= data.subrange(0, a.1 as int));
    }
}

/// The fragments a BSend of `data` sends along plan `plan`, with sequence
/// number `seqs[i]` on fragment `i`.
#[verifier::opaque]
pub open spec fn bsend_frames(
    pdu_ref: u16,
    seqs: Seq<u8>,
    id_seq: u8,
    r_id: u32,
    data: Seq<u8>,
    plan: Seq<(usize, usize)>,
) -> Seq<Seq<u8>> {
    Seq::new(
        plan.len(),
        |i: int|
            bsend_frame_spec(
                pdu_ref,
                seqs[i],
                id_seq,
                r_id,
                data.len(),
                data.subrange(plan[i].0 as int, plan[i].1 as int),
                plan[i].0 == 0,
                plan[i].1 == data.len(),
            ),
    )
}

/// What the receiving side gathers from `frames`, from fragment `i` on, after
/// `acc`: taking each fragment apart (the first one as first), it appends its
/// bytes, and at the fragment marked last gives that fragment's request id and
/// all the bytes; nothing when a fragment is refused or none is marked last.
pub open spec fn brecv_gather(frames: Seq<Seq<u8>>, i: int, acc: Seq<u8>) -> Option<(u32, Seq<u8>)>
    decreases frames.len() - i,
{
    if i < 0 || i >= frames.len() {
        None
    } else {
        match brecv_fragment_spec(frames[i], i == 0) {
            Err(_) => None,
            Ok((rid, d, last)) => if last {
                Some((rid, acc + d))
            } else {
                brecv_gather(frames, i + 1, acc + d)
            },
        }
    }
}

proof fn lemma_plan_step(plan: Seq<(usize, usize)>, len: nat, m: int, k: int)
    requires
        1 <= m,
        is_slice_plan(plan, len, m),
        0 <= k < plan.len(),
    ensures
        plan[k].0 <= plan[k].1 <= len,
        plan[k].1 - plan[k].0 <= m,
        (plan[k].0 == 0) == (k == 0),
        plan[k].1 != len ==> k + 1 < plan.len() && plan[k + 1].0 == plan[k].1,
{
    let a = plan[k];
    assert(a.0 == k * m);
    assert((a.0 == 0) == (k == 0)) by (nonlinear_arith)
        requires
            a.0 == k * m,
            m >= 1,
            k >= 0,
    ;
    if a.1 != len {
        if k == plan.len() - 1 {
            assert(plan.last() == a);
        }
        let b = plan[k + 1];
        assert(b.0 == (k + 1) * m);
        assert((k + 1) * m == k * m + m) by (nonlinear_arith);
        assert(b.0 < len);
    }
}

proof fn lemma_gather_from(
    pdu_ref: u16,
    seqs: Seq<u8>,
    id_seq: u8,
    r_id: u32,
    data: Seq<u8>,
    plan: Seq<(usize, usize)>,
    m: int,
    k: int,
)
    requires
        1 <= m <= 65499,
        is_slice_plan(plan, data.len(), m),
        seqs.len() == plan.len(),
        0 <= k < plan.len(),
    ensures
        brecv_gather(bsend_frames(pdu_ref, seqs, id_seq, r_id, data, plan), k, data.subrange(0, plan[k].0 as int))
            == Some((r_id, data)),
    decreases plan.len() - k,
{
    let frames = bsend_frames(pdu_ref, seqs, id_seq, r_id, data, plan);
    let a = plan[k];
    lemma_plan_step(plan, data.len(), m, k);
    let slice = data.subrange(a.0 as int, a.1 as int);
    let last = a.1 == data.len();
    assert(frames.len() == plan.len()) by {
        reveal(bsend_frames);
    }
    assert(brecv_fragment_spec(frames[k], k == 0) == Ok::<(u32, Seq<u8>, bool), Error>((r_id, slice, last))) by {
        reveal(bsend_frames);
        assert(frames.len() == plan.len());
        lemma_fragment_roundtrip(pdu_ref, seqs[k], id_seq, r_id, data.len(), slice, a.0 == 0, last);
    }
    assert(data.subrange(0, a.0 as int) + slice =~= data.subrange(0, a.1 as int));
    if last {
        assert(data.subrange(0, a.1 as int) =~= data);
    } else {
        lemma_gather_from(pdu_ref, seqs, id_seq, r_id, data, plan, m, k + 1);
    }
}

/// A BSend of a non-empty block of at most 64 KiB, cut along the plan for the
/// PDU size and sent with any sequence numbers, is gathered by the receiving
/// side as the request id and the whole block.
pub proof fn lemma_bsend_brecv_roundtrip(
    pdu_ref: u16,
    seqs: Seq<u8>,
    id_seq: u8,
    r_id: u32,
    data: Seq<u8>,
    pdu_size: u16,
    plan: Seq<(usize, usize)>,
)
    requires
        0 < data.len() <= MAX_BSEND_SIZE,
        is_slice_plan(plan, data.len(), max_slice(pdu_size)),
        seqs.len() == plan.len(),
    ensures
        brecv_gather(bsend_frames(pdu_ref, seqs, id_seq, r_id, data, plan), 0, Seq::<u8>::empty())
            == Some((r_id, data)),
{
    assert(plan.len() > 0);
    assert(plan[0].0 == 0);
    assert(data.subrange(0, 0) =~= Seq::<u8>::empty());
    lemma_gather_from(pdu_ref, seqs, id_seq, r_id, data, plan, max_slice(pdu_size), 0);
}

/// An acknowledgement of at least 22 bytes whose error word (bytes 20 and 21)
/// is not zero is a refusal carrying that word; one whose error word is zero
/// acknowledges with the sequence number of byte 17.
pub proof fn lemma_bsend_ack_refusal(resp: Seq<u8>)
    requires
        resp.len() >= 22,
    ensures
        be16_at(resp, 20) != 0 ==> bsend_ack_spec(resp) == Err::<u8, Error>(
            Error::SendRefused(be16_at(resp, 20)),
        ),
        be16_at(resp, 20) == 0 ==> bsend_ack_spec(resp) == Ok::<u8, Error>(resp[17]),
{
    let d = resp.subrange(10, resp.len() as int);
    assert(be16_at(d, 10) == be16_at(resp, 20));
    assert(d[7] == resp[17]);
}

} // verus!
