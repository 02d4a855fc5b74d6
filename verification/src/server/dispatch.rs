//! The simulated PLC's answers: from the bytes of an S7 request to the bytes
//! of its answer, with the effect on the store.
use vstd::prelude::*;
use crate::error::ProtoError;
use crate::proto::cotp::{cotp_bytes, CotpModel, CotpPdu};
use crate::proto::s7::header::{s7_header_bytes, s7_header_decode_spec, PduType, S7Header};
use crate::proto::s7::read_var::{
    data_item_decode_spec, data_items_bytes, data_items_decode_spec, data_items_view, read_var_request_decode_spec,
    AddressItem, DataItem, DataItemModel, ReadVarRequest, ReadVarResponse, FUNC_READ_VAR,
};
use crate::proto::s7::write_var::{write_items_view, write_var_request_decode_spec, WriteItemModel, WriteVarRequest, FUNC_WRITE_VAR};
use crate::proto::tpkt::{tpkt_bytes, TpktFrame};
use crate::server::store::{
    queue_event, read_callback_count, read_callback_holds, write_callback_count, write_callback_holds, Callbacks,
    DataStore, EventInfo, EVENT_READ, EVENT_WRITE,
};
use crate::types::padded;
use crate::wire::{be16_at, be16_bytes, copy_range, push_be16, push_slice, read_be16};

verus! {

/// The header of an answer: AckData with the given sizes and error bytes.
pub open spec fn ack_header(pdu_ref: u16, plen: u16, dlen: u16, ec: u8, ecd: u8) -> S7Header {
    S7Header {
        pdu_type: PduType::AckData,
        reserved: 0,
        pdu_ref,
        param_len: plen,
        data_len: dlen,
        error_class: Some(ec),
        error_code: Some(ecd),
    }
}

/// An answer that carries only an error class and code.
pub open spec fn error_reply(pdu_ref: u16, ec: u8, ecd: u8) -> Seq<u8> {
    s7_header_bytes(ack_header(pdu_ref, 0, 0, ec, ecd))
}

/// An answer that acknowledges with nothing more.
pub open spec fn simple_ack(pdu_ref: u16) -> Seq<u8> {
    error_reply(pdu_ref, 0, 0)
}

/// An answer to a variable request: the function, the item count and the data.
pub open spec fn ack_data(pdu_ref: u16, func: u8, count: u8, data: Seq<u8>) -> Seq<u8> {
    s7_header_bytes(ack_header(pdu_ref, 2, (data.len() % 65536) as u16, 0, 0)) + seq![func, count] + data
}

fn header_bytes(h: S7Header) -> (r: Vec<u8>)
    ensures
        r@ == s7_header_bytes(h),
{
    let mut b: Vec<u8> = Vec::new();
    h.encode(&mut b);
    b
}

fn error_reply_bytes(pdu_ref: u16, ec: u8, ecd: u8) -> (r: Vec<u8>)
    ensures
        r@ == error_reply(pdu_ref, ec, ecd),
{
    header_bytes(
        S7Header {
            pdu_type: PduType::AckData,
            reserved: 0,
            pdu_ref,
            param_len: 0,
            data_len: 0,
            error_class: Some(ec),
            error_code: Some(ecd),
        },
    )
}

fn ack_data_bytes(pdu_ref: u16, func: u8, count: u8, data: &[u8]) -> (r: Vec<u8>)
    ensures
        r@ == ack_data(pdu_ref, func, count, data@),
{
    let mut b = header_bytes(
        S7Header {
            pdu_type: PduType::AckData,
            reserved: 0,
            pdu_ref,
            param_len: 2,
            data_len: (data.len() % 65536) as u16,
            error_class: Some(0),
            error_code: Some(0),
        },
    );
    b.push(func);
    b.push(count);
    push_slice(&mut b, data);
    assert(b@ =~= ack_data(pdu_ref, func, count, data@));
    b
}

/// The answer to a control request (0x28 hot start, 0x29 stop, 0x2A cold
/// start, 0x31 status): the function echoed, and for a status request the RUN
/// byte 0x08.
pub open spec fn control_reply(pdu_ref: u16, func: u8) -> Seq<u8> {
    s7_header_bytes(ack_header(pdu_ref, 2, if func == 0x31 { 1 } else { 0 }, 0, 0)) + seq![func, 0x00u8]
        + if func == 0x31 {
        seq![0x08u8]
    } else {
        Seq::<u8>::empty()
    }
}

fn control_reply_bytes(pdu_ref: u16, func: u8) -> (r: Vec<u8>)
    ensures
        r@ == control_reply(pdu_ref, func),
{
    let dlen: u16 = if func == 0x31 {
        1
    } else {
        0
    };
    let mut b = header_bytes(
        S7Header {
            pdu_type: PduType::AckData,
            reserved: 0,
            pdu_ref,
            param_len: 2,
            data_len: dlen,
            error_class: Some(0),
            error_code: Some(0),
        },
    );
    b.push(func);
    b.push(0x00);
    if func == 0x31 {
        b.push(0x08);
    }
    assert(b@ =~= control_reply(pdu_ref, func));
    b
}

/// An SZL block: id, index, entry length, entry count (cut to 16 bits) and the
/// entries.
pub open spec fn szl_block_bytes(szl_id: u16, szl_index: u16, entry_len: u16, entries: Seq<u8>) -> Seq<u8> {
    be16_bytes(szl_id) + be16_bytes(szl_index) + be16_bytes(entry_len) + be16_bytes(
        if entry_len > 0 {
            ((entries.len() / entry_len as nat) % 65536) as u16
        } else {
            0
        },
    ) + entries
}

/// Builds an SZL block.
pub fn szl_block(szl_id: u16, szl_index: u16, entry_len: u16, entries: &[u8]) -> (r: Vec<u8>)
    ensures
        r@ == szl_block_bytes(szl_id, szl_index, entry_len, entries@),
{
    let count: u16 = if entry_len > 0 {
        ((entries.len() / entry_len as usize) % 65536) as u16
    } else {
        0
    };
    let mut v: Vec<u8> = Vec::new();
    push_be16(&mut v, szl_id);
    push_be16(&mut v, szl_index);
    push_be16(&mut v, entry_len);
    push_be16(&mut v, count);
    push_slice(&mut v, entries);
    assert(v@ =~= szl_block_bytes(szl_id, szl_index, entry_len, entries@));
    v
}

/// "Simulated PLC" padded to 20 bytes.
pub open spec fn sim_order_text() -> Seq<u8> {
    padded(seq![0x53u8, 0x69, 0x6D, 0x75, 0x6C, 0x61, 0x74, 0x65, 0x64, 0x20, 0x50, 0x4C, 0x43], 20)
}

pub open spec fn txt_simplc() -> Seq<u8> {
    seq![0x53u8, 0x69, 0x6D, 0x50, 0x4C, 0x43]
}

pub open spec fn txt_cpu_simulated() -> Seq<u8> {
    seq![0x43u8, 0x50, 0x55, 0x20, 0x53, 0x69, 0x6D, 0x75, 0x6C, 0x61, 0x74, 0x65, 0x64]
}

pub open spec fn txt_copyright() -> Seq<u8> {
    seq![0x28u8, 0x43, 0x29, 0x20, 0x53, 0x69, 0x6D, 0x75, 0x6C, 0x61, 0x74, 0x65, 0x64]
}

pub open spec fn txt_serial() -> Seq<u8> {
    seq![0x53u8, 0x49, 0x4D, 0x2D, 0x30, 0x30, 0x30, 0x30, 0x30, 0x30, 0x30, 0x30, 0x30, 0x31]
}

/// One 34-byte CPU identification entry: its index and a space-padded text.
pub open spec fn cpu_entry(idx: u16, s: Seq<u8>) -> Seq<u8> {
    be16_bytes(idx) + padded(s, 32)
}

/// The simulated CPU's identification entries.
pub open spec fn cpu_entries() -> Seq<u8> {
    cpu_entry(1, txt_simplc()) + cpu_entry(2, txt_cpu_simulated()) + cpu_entry(3, txt_simplc()) + cpu_entry(
        4,
        txt_copyright(),
    ) + cpu_entry(5, txt_serial()) + cpu_entry(7, txt_cpu_simulated()) + cpu_entry(8, txt_simplc())
}

/// The SZL block the simulated PLC answers with for each id: order number
/// (0x0011), protection (0x0032), CPU identification (0x001C), CP limits
/// (0x0131), status RUN (0x0424), and an empty block for any other id.
pub open spec fn szl_response_spec(szl_id: u16) -> Seq<u8> {
    if szl_id == 0x0011 {
        szl_block_bytes(
            0x0011,
            0,
            28,
            seq![0x00u8, 0x01] + sim_order_text() + seq![0x00u8, 1, 0, 0, 0, 0],
        )
    } else if szl_id == 0x0032 {
        szl_block_bytes(0x0032, 0, 16, seq![3u8, 0, 3, 0, 3, 0, 0, 0, 0, 0, 0, 0, 0, 0, 0, 0])
    } else if szl_id == 0x001C {
        szl_block_bytes(0x001C, 0, 34, cpu_entries())
    } else if szl_id == 0x0131 {
        szl_block_bytes(
            0x0131,
            1,
            14,
            seq![0x00u8, 0x01, 0x01, 0xE0, 0x00, 0x20, 0x00, 0x02, 0xDC, 0x6C, 0x00, 0x00, 0x61, 0xA8],
        )
    } else if szl_id == 0x0424 {
        szl_block_bytes(0x0424, 0, 12, seq![0u8, 0, 0, 0x08, 0, 0, 0, 0, 0, 0, 0, 0])
    } else {
        szl_block_bytes(szl_id, 0, 0, Seq::empty())
    }
}

fn push_padded(v: &mut Vec<u8>, s: &[u8], w: usize)
    ensures
        final(v)@ == old(v)@ + padded(s@, w as nat),
{
    let mut i: usize = 0;
    let ghost start = v@;
    while i < w
        invariant
            i <= w,
            v@ == start + padded(s@, w as nat).subrange(0, i as int),
        decreases w - i,
    {
        let b: u8 = if i < s.len() {
            s[i]
        } else {
            0x20
        };
        v.push(b);
        i = i + 1;
        assert(v@ =~= start + padded(s@, w as nat).subrange(0, i as int));
    }
    assert(padded(s@, w as nat).subrange(0, w as int) =~= padded(s@, w as nat));
}

fn push_cpu_entry(v: &mut Vec<u8>, idx: u16, s: &[u8])
    ensures
        final(v)@ == old(v)@ + cpu_entry(idx, s@),
{
    push_be16(v, idx);
    push_padded(v, s, 32);
    assert(final(v)@ =~= old(v)@ + cpu_entry(idx, s@));
}

/// The SZL block the simulated PLC answers with.
pub fn build_szl_response(szl_id: u16) -> (r: Vec<u8>)
    ensures
        r@ == szl_response_spec(szl_id),
{
    if szl_id == 0x0011 {
        let mut e: Vec<u8> = vec![0x00, 0x01];
        let name: [u8; 13] = [0x53, 0x69, 0x6D, 0x75, 0x6C, 0x61, 0x74, 0x65, 0x64, 0x20, 0x50, 0x4C, 0x43];
        push_padded(&mut e, &name, 20);
        e.push(0);
        e.push(1);
        e.push(0);
        e.push(0);
        e.push(0);
        e.push(0);
        assert(name@ =~= seq![0x53u8, 0x69, 0x6D, 0x75, 0x6C, 0x61, 0x74, 0x65, 0x64, 0x20, 0x50, 0x4C, 0x43]);
        assert(e@ =~= seq![0x00u8, 0x01] + sim_order_text() + seq![0x00u8, 1, 0, 0, 0, 0]);
        szl_block(0x0011, 0, 28, e.as_slice())
    } else if szl_id == 0x0032 {
        let e: Vec<u8> = vec![3, 0, 3, 0, 3, 0, 0, 0, 0, 0, 0, 0, 0, 0, 0, 0];
        assert(e@ =~= seq![3u8, 0, 3, 0, 3, 0, 0, 0, 0, 0, 0, 0, 0, 0, 0, 0]);
        szl_block(0x0032, 0, 16, e.as_slice())
    } else if szl_id == 0x001C {
        let simplc: [u8; 6] = [0x53, 0x69, 0x6D, 0x50, 0x4C, 0x43];
        let cpu: [u8; 13] = [0x43, 0x50, 0x55, 0x20, 0x53, 0x69, 0x6D, 0x75, 0x6C, 0x61, 0x74, 0x65, 0x64];
        let copy: [u8; 13] = [0x28, 0x43, 0x29, 0x20, 0x53, 0x69, 0x6D, 0x75, 0x6C, 0x61, 0x74, 0x65, 0x64];
        let serial: [u8; 14] = [0x53, 0x49, 0x4D, 0x2D, 0x30, 0x30, 0x30, 0x30, 0x30, 0x30, 0x30, 0x30, 0x30, 0x31];
        assert(simplc@ =~= txt_simplc());
        assert(cpu@ =~= txt_cpu_simulated());
        assert(copy@ =~= txt_copyright());
        assert(serial@ =~= txt_serial());
        let mut e: Vec<u8> = Vec::new();
        push_cpu_entry(&mut e, 1, &simplc);
        push_cpu_entry(&mut e, 2, &cpu);
        push_cpu_entry(&mut e, 3, &simplc);
        push_cpu_entry(&mut e, 4, &copy);
        push_cpu_entry(&mut e, 5, &serial);
        push_cpu_entry(&mut e, 7, &cpu);
        push_cpu_entry(&mut e, 8, &simplc);
        assert(e@ =~= cpu_entries());
        szl_block(0x001C, 0, 34, e.as_slice())
    } else if szl_id == 0x0131 {
        let e: Vec<u8> = vec![0x00, 0x01, 0x01, 0xE0, 0x00, 0x20, 0x00, 0x02, 0xDC, 0x6C, 0x00, 0x00, 0x61, 0xA8];
        assert(e@ =~= seq![0x00u8, 0x01, 0x01, 0xE0, 0x00, 0x20, 0x00, 0x02, 0xDC, 0x6C, 0x00, 0x00, 0x61, 0xA8]);
        szl_block(0x0131, 1, 14, e.as_slice())
    } else if szl_id == 0x0424 {
        let e: Vec<u8> = vec![0, 0, 0, 0x08, 0, 0, 0, 0, 0, 0, 0, 0];
        assert(e@ =~= seq![0u8, 0, 0, 0x08, 0, 0, 0, 0, 0, 0, 0, 0]);
        szl_block(0x0424, 0, 12, e.as_slice())
    } else {
        let e: Vec<u8> = Vec::new();
        assert(e@ =~= Seq::<u8>::empty());
        szl_block(szl_id, 0, 0, e.as_slice())
    }
}

/// A request as the simulated PLC reads it.
pub enum RequestModel {
    /// Not understood: answered with error class 0x81, code 0x04.
    Invalid { pdu_ref: u16 },
    ReadVar { pdu_ref: u16, items: Seq<AddressItem> },
    WriteVar { pdu_ref: u16, items: Seq<WriteItemModel> },
    /// Stop, hot or cold start, or status.
    Control { pdu_ref: u16, func: u8 },
    /// Acknowledged with nothing more (passwords, other user data).
    Ack { pdu_ref: u16 },
    /// Set the clock; the 8 BCD bytes when the request holds them.
    SetClock { pdu_ref: u16, bytes: Option<Seq<u8>> },
    ReadClock { pdu_ref: u16 },
    /// An SZL query, with the request body after the header.
    Szl { pdu_ref: u16, body: Seq<u8> },
}

/// How the simulated PLC reads a request PDU.
pub open spec fn classify(p: Seq<u8>) -> RequestModel {
    match s7_header_decode_spec(p) {
        Err(_) => RequestModel::Invalid { pdu_ref: 0 },
        Ok((h, n)) => {
            let b = p.subrange(n, p.len() as int);
            let r = h.pdu_ref;
            if b.len() == 0 {
                RequestModel::Invalid { pdu_ref: r }
            } else if h.pdu_type == PduType::Job {
                let f = b[0];
                if f == FUNC_READ_VAR {
                    match read_var_request_decode_spec(b) {
                        Err(_) => RequestModel::Invalid { pdu_ref: r },
                        Ok((items, _)) => RequestModel::ReadVar { pdu_ref: r, items },
                    }
                } else if f == FUNC_WRITE_VAR {
                    match write_var_request_decode_spec(b) {
                        Err(_) => RequestModel::Invalid { pdu_ref: r },
                        Ok((items, _)) => RequestModel::WriteVar { pdu_ref: r, items },
                    }
                } else if f == 0x28 || f == 0x29 || f == 0x2A || f == 0x31 {
                    RequestModel::Control { pdu_ref: r, func: f }
                } else if f == 0x11 || f == 0x12 {
                    RequestModel::Ack { pdu_ref: r }
                } else {
                    RequestModel::Invalid { pdu_ref: r }
                }
            } else if h.pdu_type == PduType::UserData {
                if b.len() >= 5 && b[4] == 0x11 {
                    let tg: u8 = if b.len() >= 6 {
                        b[5]
                    } else {
                        0
                    };
                    if tg & 0x0F == 0x07 {
                        let sub: u8 = if b.len() >= 7 {
                            b[6]
                        } else {
                            0
                        };
                        if sub == 0x02 {
                            RequestModel::SetClock {
                                pdu_ref: r,
                                bytes: if b.len() >= 20 {
                                    Some(b.subrange(12, 20))
                                } else {
                                    None
                                },
                            }
                        } else {
                            RequestModel::ReadClock { pdu_ref: r }
                        }
                    } else {
                        RequestModel::Szl { pdu_ref: r, body: b }
                    }
                } else {
                    RequestModel::Ack { pdu_ref: r }
                }
            } else {
                RequestModel::Invalid { pdu_ref: r }
            }
        },
    }
}

/// The number of bytes a read item gets: its length, cut at the end of the
/// 32-bit offset range.
pub open spec fn item_read_len(it: AddressItem) -> nat {
    (DataStore::range_end(it.start, it.length as u32) - it.start) as nat
}

/// The event a read item raises.
pub open spec fn read_event(it: AddressItem) -> EventInfo {
    EventInfo { event: "read", area: it.area.code(), db_number: it.db_number, start: it.start, length: it.length as u32 }
}

/// The event a write item raises.
pub open spec fn write_event(it: WriteItemModel) -> EventInfo {
    EventInfo {
        event: "write",
        area: it.address.area.code(),
        db_number: it.address.db_number,
        start: it.address.start,
        length: it.data.len() as u32,
    }
}

/// Every read callback of `c` has been called with the event of each of `items`.
pub open spec fn reads_reported(c: Callbacks, items: Seq<AddressItem>) -> bool {
    forall|j: int, k: int|
        0 <= j < items.len() && 0 <= k < read_callback_count(c) ==> #[trigger] read_callback_holds(
            c,
            k,
            read_event(items[j]),
        )
}

/// Every write callback of `c` has been called with the event of each of
/// `items` whose area is not in `locked`.
pub open spec fn writes_reported(c: Callbacks, locked: Set<u8>, items: Seq<WriteItemModel>) -> bool {
    forall|j: int, k: int|
        0 <= j < items.len() && !locked.contains(items[j].address.area.code()) && 0 <= k
            < write_callback_count(c) ==> #[trigger] write_callback_holds(c, k, write_event(items[j]))
}

/// The callbacks a request calls, all of `c`: the read callbacks with each read
/// item, the write callbacks with each write item to an unlocked area.
pub open spec fn callbacks_called(c: Callbacks, s: DataStore, req: RequestModel) -> bool {
    match req {
        RequestModel::ReadVar { items, .. } => reads_reported(c, items),
        RequestModel::WriteVar { items, .. } => writes_reported(c, s.locked(), items),
        _ => true,
    }
}

/// The data items answering `items`: success, and the bytes the store holds.
pub open spec fn read_replies(s: DataStore, items: Seq<AddressItem>) -> Seq<DataItemModel> {
    Seq::new(
        items.len(),
        |k: int|
            DataItemModel {
                return_code: 0xFF,
                data: s.cells(items[k].area.code(), items[k].db_number, items[k].start, item_read_len(items[k])),
            },
    )
}

/// The event queue after the reads of `items`.
pub open spec fn events_after_reads(ev: Seq<EventInfo>, mask: u32, items: Seq<AddressItem>) -> Seq<EventInfo>
    decreases items.len(),
{
    if items.len() == 0 {
        ev
    } else {
        queue_event(events_after_reads(ev, mask, items.drop_last()), mask, EVENT_READ, read_event(items.last()))
    }
}

/// The byte at `a`/`d`/`o` after the writes of `items`: the last write to an
/// unlocked area that covers it wins.
pub open spec fn cell_after_writes(s0: DataStore, items: Seq<WriteItemModel>, a: u8, d: u16, o: u32) -> u8
    decreases items.len(),
{
    if items.len() == 0 {
        s0.cell(a, d, o)
    } else {
        let it = items.last();
        if !s0.locked().contains(it.address.area.code()) && a == it.address.area.code() && d
            == it.address.db_number && it.address.start <= o < it.address.start + it.data.len() {
            it.data[o - it.address.start]
        } else {
            cell_after_writes(s0, items.drop_last(), a, d, o)
        }
    }
}

/// The event queue after the writes of `items` (locked areas raise none).
pub open spec fn events_after_writes(
    ev: Seq<EventInfo>,
    mask: u32,
    locked: Set<u8>,
    items: Seq<WriteItemModel>,
) -> Seq<EventInfo>
    decreases items.len(),
{
    if items.len() == 0 {
        ev
    } else {
        let prev = events_after_writes(ev, mask, locked, items.drop_last());
        if locked.contains(items.last().address.area.code()) {
            prev
        } else {
            queue_event(prev, mask, EVENT_WRITE, write_event(items.last()))
        }
    }
}

fn read_items(s: &mut DataStore, items: &[AddressItem]) -> (r: Vec<DataItem>)
    ensures
        data_items_view(r@) == read_replies(*old(s), items@),
        final(s).events() == events_after_reads(old(s).events(), old(s).mask(), items@),
        final(s).same_cells(old(s)),
        final(s).same_state(old(s)),
        final(s).callbacks() == old(s).callbacks(),
        reads_reported(final(s).callbacks(), items@),
{
    let mut out: Vec<DataItem> = Vec::new();
    let mut k: usize = 0;
    while k < items.len()
        invariant
            k <= items@.len(),
            s.same_cells(old(s)),
            s.same_state(old(s)),
            s.events() == events_after_reads(old(s).events(), old(s).mask(), items@.subrange(0, k as int)),
            data_items_view(out@) == read_replies(*old(s), items@.subrange(0, k as int)),
            out@.len() == k,
            s.callbacks() == old(s).callbacks(),
            reads_reported(s.callbacks(), items@.subrange(0, k as int)),
        decreases items@.len() - k,
    {
        let it = items[k];
        let data = s.read_area(it.area.as_u8(), it.db_number, it.start, it.length as u32);
        proof {
            let sub = items@.subrange(0, k + 1);
            assert forall|j: int, q: int|
                0 <= j < sub.len() && 0 <= q < read_callback_count(s.callbacks()) implies #[trigger] read_callback_holds(
                s.callbacks(),
                q,
                read_event(sub[j]),
            ) by {
                if j < k {
                    assert(sub[j] == items@.subrange(0, k as int)[j]);
                } else {
                    assert(sub[j] == it);
                    assert(read_event(it) == EventInfo {
                        event: "read",
                        area: it.area.code(),
                        db_number: it.db_number,
                        start: it.start,
                        length: it.length as u32,
                    });
                }
            }
        }
        let ghost prev = out@;
        out.push(DataItem { return_code: 0xFF, data });
        proof {
            assert(items@.subrange(0, k + 1).drop_last() =~= items@.subrange(0, k as int));
            assert(data_items_view(out@) =~= read_replies(*old(s), items@.subrange(0, k + 1))) by {
                assert forall|j: int| 0 <= j < k + 1 implies #[trigger] data_items_view(out@)[j]
                    == read_replies(*old(s), items@.subrange(0, k + 1))[j] by {
                    if j < k {
                        assert(out@[j] == prev[j]);
                        assert(data_items_view(prev)[j] == read_replies(*old(s), items@.subrange(0, k as int))[j]);
                    } else {
                        assert forall|i: int| 0 <= i < item_read_len(it) implies
                            #[trigger] old(s).cells(it.area.code(), it.db_number, it.start, item_read_len(it))[i]
                            == data@[i] by {
                        }
                        assert(data@ =~= old(s).cells(it.area.code(), it.db_number, it.start, item_read_len(it)));
                    }
                }
            }
        }
        k = k + 1;
    }
    assert(items@.subrange(0, items@.len() as int) =~= items@);
    out
}

/// Decoded data items carry at most 8192 bytes each (a 16-bit bit length).
proof fn lemma_data_items_small(s: Seq<u8>, p: int, k: nat)
    requires
        0 <= p,
    ensures
        data_items_decode_spec(s, p, k) matches Ok((ds, q)) ==> q >= p && forall|i: int|
            0 <= i < ds.len() ==> (#[trigger] ds[i]).data.len() <= 8192,
    decreases k,
{
    if k > 0 {
        lemma_data_items_small(s, p, (k - 1) as nat);
        match data_items_decode_spec(s, p, (k - 1) as nat) {
            Err(_) => {},
            Ok((prev, q)) => {
                match data_item_decode_spec(s, q) {
                    Err(_) => {},
                    Ok((d, _)) => {
                        let bl = (be16_at(s, q + 2) as int + 7) / 8;
                        assert(bl <= 8192);
                        assert(d.data == s.subrange(q + 4, q + 4 + bl));
                        assert(d.data.len() <= 8192);
                        let ds = prev.push(d);
                        assert forall|i: int| 0 <= i < ds.len() implies (#[trigger] ds[i]).data.len() <= 8192 by {
                            if i < prev.len() {
                                assert(ds[i] == prev[i]);
                            }
                        }
                    },
                }
            },
        }
    }
}

/// The items of a decoded write request carry at most 8192 bytes each.
proof fn lemma_write_items_small(b: Seq<u8>)
    ensures
        write_var_request_decode_spec(b) matches Ok((items, _)) ==> forall|i: int|
            0 <= i < items.len() ==> (#[trigger] items[i]).data.len() <= 8192,
{
    if b.len() >= 2 {
        lemma_data_items_small(b, 2 + 12 * b[1] as int, b[1] as nat);
        crate::proto::s7::read_var::lemma_data_items_decode_len(b, 2 + 12 * b[1] as int, b[1] as nat);
    }
}

fn write_items(s: &mut DataStore, items: &[crate::proto::s7::write_var::WriteItem])
    requires
        forall|i: int| 0 <= i < items@.len() ==> (#[trigger] items@[i]).data@.len() <= u32::MAX,
    ensures
        forall|a: u8, d: u16, o: u32| #[trigger]
            final(s).cell(a, d, o) == cell_after_writes(*old(s), write_items_view(items@), a, d, o),
        final(s).events() == events_after_writes(
            old(s).events(),
            old(s).mask(),
            old(s).locked(),
            write_items_view(items@),
        ),
        final(s).same_state(old(s)),
        final(s).callbacks() == old(s).callbacks(),
        writes_reported(final(s).callbacks(), old(s).locked(), write_items_view(items@)),
{
    let ghost v = write_items_view(items@);
    let mut k: usize = 0;
    while k < items.len()
        invariant
            k <= items@.len(),
            v == write_items_view(items@),
            forall|i: int| 0 <= i < items@.len() ==> (#[trigger] items@[i]).data@.len() <= u32::MAX,
            s.same_state(old(s)),
            forall|a: u8, d: u16, o: u32| #[trigger]
                s.cell(a, d, o) == cell_after_writes(*old(s), v.subrange(0, k as int), a, d, o),
            s.events() == events_after_writes(
                old(s).events(),
                old(s).mask(),
                old(s).locked(),
                v.subrange(0, k as int),
            ),
            s.callbacks() == old(s).callbacks(),
            writes_reported(s.callbacks(), old(s).locked(), v.subrange(0, k as int)),
        decreases items@.len() - k,
    {
        let it = &items[k];
        let ghost mid = *s;
        s.write_area(it.address.area.as_u8(), it.address.db_number, it.address.start, it.data.as_slice());
        proof {
            let w = v.subrange(0, k + 1);
            assert(w.drop_last() =~= v.subrange(0, k as int));
            assert(w.last() == it@);
            assert forall|j: int, q: int|
                0 <= j < w.len() && !old(s).locked().contains(w[j].address.area.code()) && 0 <= q
                    < write_callback_count(s.callbacks()) implies #[trigger] write_callback_holds(
                s.callbacks(),
                q,
                write_event(w[j]),
            ) by {
                if j < k {
                    assert(w[j] == v.subrange(0, k as int)[j]);
                } else {
                    assert(w[j] == it@);
                }
            }
            assert forall|a: u8, d: u16, o: u32| #[trigger]
                s.cell(a, d, o) == cell_after_writes(*old(s), w, a, d, o) by {
                if !mid.locked().contains(it.address.area.code()) {
                    assert(s.cell(a, d, o) == mid.written(
                        it.address.area.code(),
                        it.address.db_number,
                        it.address.start,
                        it.data@,
                        a,
                        d,
                        o,
                    ));
                } else {
                    assert(s.cell(a, d, o) == mid.cell(a, d, o));
                }
            }
        }
        k = k + 1;
    }
    assert(v.subrange(0, items@.len() as int) =~= v);
}

/// The answer to an SZL query: the request's 12 parameter bytes echoed (zeros
/// when it has fewer), then the data envelope and the SZL block.
pub open spec fn szl_reply(pdu_ref: u16, body: Seq<u8>) -> Seq<u8> {
    let id: u16 = if body.len() >= 14 {
        be16_at(body, 12)
    } else {
        0
    };
    let data = szl_response_spec(id);
    let dlen = (data.len() % 65536) as u16;
    s7_header_bytes(ack_header(pdu_ref, 12, dlen, 0, 0)) + (if body.len() >= 12 {
        body.subrange(0, 12)
    } else {
        Seq::new(12, |i: int| 0u8)
    }) + seq![0xFFu8, 0x04] + be16_bytes(dlen) + data
}

/// The answer to a clock read: a user-data header, the echoed parameters, and
/// the clock's 8 bytes.
pub open spec fn clock_reply(pdu_ref: u16, clock: Seq<u8>) -> Seq<u8> {
    s7_header_bytes(
        S7Header {
            pdu_type: PduType::UserData,
            reserved: 0,
            pdu_ref,
            param_len: 12,
            data_len: 4,
            error_class: None,
            error_code: None,
        },
    ) + seq![0x00u8, 0x01, 0x12, 0x08, 0x12, 0x87, 0x01, 0x00] + clock
}

/// The answer the simulated PLC gives to a request, in store `s`.
pub open spec fn reply_spec(s: DataStore, req: RequestModel) -> Seq<u8> {
    match req {
        RequestModel::Invalid { pdu_ref } => error_reply(pdu_ref, 0x81, 0x04),
        RequestModel::ReadVar { pdu_ref, items } => ack_data(
            pdu_ref,
            FUNC_READ_VAR,
            (items.len() % 256) as u8,
            data_items_bytes(read_replies(s, items)),
        ),
        RequestModel::WriteVar { pdu_ref, items } => ack_data(
            pdu_ref,
            FUNC_WRITE_VAR,
            (items.len() % 256) as u8,
            Seq::new(items.len() % 256, |i: int| 0xFFu8),
        ),
        RequestModel::Control { pdu_ref, func } => control_reply(pdu_ref, func),
        RequestModel::Ack { pdu_ref } => simple_ack(pdu_ref),
        RequestModel::SetClock { pdu_ref, bytes } => simple_ack(pdu_ref),
        RequestModel::ReadClock { pdu_ref } => clock_reply(pdu_ref, s.clock()),
        RequestModel::Szl { pdu_ref, body } => szl_reply(pdu_ref, body),
    }
}

/// The byte at `a`/`d`/`o` after the request: writes change memory, nothing
/// else does.
pub open spec fn cell_after(s: DataStore, req: RequestModel, a: u8, d: u16, o: u32) -> u8 {
    match req {
        RequestModel::WriteVar { items, .. } => cell_after_writes(s, items, a, d, o),
        _ => s.cell(a, d, o),
    }
}

/// The event queue after the request: reads and writes raise events.
pub open spec fn events_after(s: DataStore, req: RequestModel) -> Seq<EventInfo> {
    match req {
        RequestModel::ReadVar { items, .. } => events_after_reads(s.events(), s.mask(), items),
        RequestModel::WriteVar { items, .. } => events_after_writes(s.events(), s.mask(), s.locked(), items),
        _ => s.events(),
    }
}

/// The clock after the request: a clock set that carries 8 bytes sets it.
pub open spec fn clock_after(s: DataStore, req: RequestModel) -> Seq<u8> {
    match req {
        RequestModel::SetClock { bytes: Some(b), .. } => b,
        _ => s.clock(),
    }
}

fn szl_reply_bytes(pdu_ref: u16, b: &[u8]) -> (r: Vec<u8>)
    ensures
        r@ == szl_reply(pdu_ref, b@),
{
    let id: u16 = if b.len() >= 14 {
        read_be16(b, 12)
    } else {
        0
    };
    let data = build_szl_response(id);
    let dlen = (data.len() % 65536) as u16;
    let mut out = header_bytes(
        S7Header {
            pdu_type: PduType::AckData,
            reserved: 0,
            pdu_ref,
            param_len: 12,
            data_len: dlen,
            error_class: Some(0),
            error_code: Some(0),
        },
    );
    let ghost h = out@;
    if b.len() >= 12 {
        push_slice(&mut out, &b[0..12]);
    } else {
        let z: [u8; 12] = [0; 12];
        assert(z@ =~= Seq::new(12, |i: int| 0u8));
        push_slice(&mut out, &z);
    }
    out.push(0xFF);
    out.push(0x04);
    push_be16(&mut out, dlen);
    push_slice(&mut out, data.as_slice());
    assert(out@ =~= szl_reply(pdu_ref, b@));
    out
}

fn clock_reply_bytes(pdu_ref: u16, clock: &[u8; 8]) -> (r: Vec<u8>)
    ensures
        r@ == clock_reply(pdu_ref, clock@),
{
    let mut out = header_bytes(
        S7Header {
            pdu_type: PduType::UserData,
            reserved: 0,
            pdu_ref,
            param_len: 12,
            data_len: 4,
            error_class: None,
            error_code: None,
        },
    );
    let params: [u8; 8] = [0x00, 0x01, 0x12, 0x08, 0x12, 0x87, 0x01, 0x00];
    assert(params@ =~= seq![0x00u8, 0x01, 0x12, 0x08, 0x12, 0x87, 0x01, 0x00]);
    push_slice(&mut out, &params);
    push_slice(&mut out, clock);
    assert(out@ =~= clock_reply(pdu_ref, clock@));
    out
}

fn clock_bytes(b: &[u8]) -> (r: [u8; 8])
    requires
        b@.len() >= 20,
    ensures
        r@ == b@.subrange(12, 20),
{
    let mut arr = [0u8; 8];
    let mut i: usize = 0;
    while i < 8
        invariant
            i <= 8,
            b@.len() >= 20,
            forall|k: int| 0 <= k < i ==> arr@[k] == b@[12 + k],
        decreases 8 - i,
    {
        arr[i] = b[12 + i];
        i = i + 1;
    }
    assert(arr@ =~= b@.subrange(12, 20));
    arr
}

/// Answers one request PDU: returns the answer PDU and applies the request to
/// the store (reads raise events, writes change memory, a clock set sets the
/// clock).
pub fn respond(store: &mut DataStore, payload: &[u8]) -> (r: Vec<u8>)
    ensures
        r@ == reply_spec(*old(store), classify(payload@)),
        forall|a: u8, d: u16, o: u32| #[trigger]
            final(store).cell(a, d, o) == cell_after(*old(store), classify(payload@), a, d, o),
        final(store).events() == events_after(*old(store), classify(payload@)),
        final(store).clock() == clock_after(*old(store), classify(payload@)),
        final(store).areas() == old(store).areas(),
        final(store).locked() == old(store).locked(),
        final(store).cpu() == old(store).cpu(),
        final(store).mask() == old(store).mask(),
        final(store).clients() == old(store).clients(),
        final(store).callbacks() == old(store).callbacks(),
        callbacks_called(final(store).callbacks(), *old(store), classify(payload@)),
{
    let (h, n) = match S7Header::decode(payload) {
        Ok(x) => x,
        Err(_) => {
            return error_reply_bytes(0, 0x81, 0x04);
        },
    };
    let b = &payload[n..payload.len()];
    let r = h.pdu_ref;
    if b.len() == 0 {
        return error_reply_bytes(r, 0x81, 0x04);
    }
    match h.pdu_type {
        PduType::Job => {
            let f = b[0];
            if f == FUNC_READ_VAR {
                match ReadVarRequest::decode(b) {
                    Err(_) => error_reply_bytes(r, 0x81, 0x04),
                    Ok((req, _)) => {
                        let items = read_items(store, req.items.as_slice());
                        let count = (req.items.len() % 256) as u8;
                        let resp = ReadVarResponse { items };
                        let mut d: Vec<u8> = Vec::new();
                        resp.encode(&mut d);
                        ack_data_bytes(r, FUNC_READ_VAR, count, d.as_slice())
                    },
                }
            } else if f == FUNC_WRITE_VAR {
                proof {
                    lemma_write_items_small(b@);
                }
                match WriteVarRequest::decode(b) {
                    Err(_) => error_reply_bytes(r, 0x81, 0x04),
                    Ok((req, _)) => {
                        proof {
                            assert forall|i: int| 0 <= i < req.items@.len() implies (#[trigger] req.items@[i]).data@.len()
                                <= u32::MAX by {
                                assert(write_items_view(req.items@)[i] == req.items@[i]@);
                            }
                        }
                        write_items(store, req.items.as_slice());
                        let count = (req.items.len() % 256) as u8;
                        let mut d: Vec<u8> = Vec::new();
                        let mut k: u8 = 0;
                        while k < count
                            invariant
                                k <= count,
                                d@ == Seq::new(k as nat, |i: int| 0xFFu8),
                            decreases count - k,
                        {
                            d.push(0xFF);
                            k = k + 1;
                            assert(d@ =~= Seq::new(k as nat, |i: int| 0xFFu8));
                        }
                        ack_data_bytes(r, FUNC_WRITE_VAR, count, d.as_slice())
                    },
                }
            } else if f == 0x28 || f == 0x29 || f == 0x2A || f == 0x31 {
                control_reply_bytes(r, f)
            } else if f == 0x11 || f == 0x12 {
                error_reply_bytes(r, 0, 0)
            } else {
                error_reply_bytes(r, 0x81, 0x04)
            }
        },
        PduType::UserData => {
            if b.len() >= 5 && b[4] == 0x11 {
                let tg: u8 = if b.len() >= 6 {
                    b[5]
                } else {
                    0
                };
                if tg & 0x0F == 0x07 {
                    let sub: u8 = if b.len() >= 7 {
                        b[6]
                    } else {
                        0
                    };
                    if sub == 0x02 {
                        if b.len() >= 20 {
                            let c = clock_bytes(b);
                            store.set_clock(c);
                        }
                        error_reply_bytes(r, 0, 0)
                    } else {
                        let c = store.get_clock();
                        clock_reply_bytes(r, &c)
                    }
                } else {
                    szl_reply_bytes(r, b)
                }
            } else {
                error_reply_bytes(r, 0, 0)
            }
        },
        _ => error_reply_bytes(r, 0x81, 0x04),
    }
}

/// A read served after a served write of the same region, in an area that is
/// not locked, answers with success and the bytes written.
pub proof fn lemma_served_write_then_read(
    s0: DataStore,
    s1: DataStore,
    pdu_ref: u16,
    w: WriteItemModel,
    r: AddressItem,
)
    requires
        forall|a: u8, d: u16, o: u32| #[trigger]
            s1.cell(a, d, o) == cell_after(
                s0,
                RequestModel::WriteVar { pdu_ref, items: seq![w] },
                a,
                d,
                o,
            ),
        !s0.locked().contains(w.address.area.code()),
        r.area == w.address.area,
        r.db_number == w.address.db_number,
        r.start == w.address.start,
        r.length == w.data.len(),
        r.start + r.length <= u32::MAX,
    ensures
        read_replies(s1, seq![r]) == seq![DataItemModel { return_code: 0xFF, data: w.data }],
{
    let items = seq![w];
    assert(items.drop_last() =~= Seq::<WriteItemModel>::empty());
    assert(item_read_len(r) == w.data.len());
    let got = s1.cells(r.area.code(), r.db_number, r.start, item_read_len(r));
    assert forall|i: int| 0 <= i < w.data.len() implies got[i] == w.data[i] by {
        let o = (r.start + i) as u32;
        assert(s1.cell(r.area.code(), r.db_number, o) == cell_after_writes(
            s0,
            items,
            r.area.code(),
            r.db_number,
            o,
        ));
    }
    assert(got =~= w.data);
    assert(read_replies(s1, seq![r]) =~= seq![DataItemModel { return_code: 0xFF, data: w.data }]);
}

/// What `reply_frame` sends: a last COTP data unit carrying the PDU, in TPKT.
pub open spec fn reply_frame_spec(pdu: Seq<u8>) -> Seq<u8> {
    tpkt_bytes(cotp_bytes(CotpModel::Data { tpdu_nr: 0, last: true, payload: pdu }))
}

/// Frames an answer PDU for the wire; one too long for a TPKT frame is refused.
pub fn reply_frame(pdu: &[u8]) -> (r: Result<Vec<u8>, ProtoError>)
    ensures
        pdu@.len() + 7 <= u16::MAX ==> (r matches Ok(v) && v@ == reply_frame_spec(pdu@)),
        pdu@.len() + 7 > u16::MAX ==> (r matches Err(ProtoError::EncodingFailed(m)) && (pdu@.len() + 7
            <= u64::MAX ==> m@ == crate::proto::tpkt::frame_too_large_text((pdu@.len() + 7) as nat))),
{
    let body = copy_range(pdu, 0, pdu.len());
    assert(body@ =~= pdu@);
    let dt = CotpPdu::Data { tpdu_nr: 0, last: true, payload: body };
    let mut c: Vec<u8> = Vec::new();
    dt.encode(&mut c);
    let frame = TpktFrame { payload: c };
    let mut out: Vec<u8> = Vec::new();
    match frame.encode(&mut out) {
        Ok(()) => {
            assert(out@ =~= reply_frame_spec(pdu@));
            Ok(out)
        },
        Err(e) => Err(e),
    }
}

} // verus!
