//! The decisions of the S7 client: how multi-variable requests are split into
//! PDUs, how job frames are built and answers read, and how PLC errors are
//! reported. The I/O loop that sends and receives lives with the caller.

pub mod blocks;
pub mod connection;
pub mod control;
pub mod info;
pub mod plus;
pub mod pool;
pub mod udp;

use vstd::prelude::*;
use crate::error::{text, Error, ProtoError};
use crate::proto::cotp::{cotp_bytes, CotpModel, CotpPdu};
use crate::proto::s7::header::{s7_header_bytes, s7_header_decode_spec, Area, PduType, S7Header, TransportSize};
use crate::proto::s7::read_var::{
    addr_fits, data_items_decode_spec, decode_data_items, read_var_request_bytes, AddressItem,
    DataItemModel, ReadVarRequest,
};
use crate::proto::s7::write_var::{
    write_items_view, write_var_request_bytes, WriteItem, WriteItemModel, WriteVarRequest,
};
use crate::proto::tpkt::{tpkt_bytes, TpktFrame};
use crate::text::{decimal, hex2, numbered_message, push_hex2};
use crate::wire::{be16_at, copy_range, push_slice, read_be16};

verus! {

pub const S7_HEADER_LEN: usize = 10;
pub const PARAM_OVERHEAD: usize = 2;
pub const ADDR_ITEM_SIZE: usize = 12;
pub const DATA_ITEM_OVERHEAD: usize = 4;
pub const MAX_ITEMS_PER_PDU: usize = 20;

/// One region to read in a multi-variable read.
#[derive(Debug, Clone, Copy, PartialEq, Eq, Structural)]
pub struct MultiReadItem {
    pub area: Area,
    pub db_number: u16,
    pub start: u32,
    pub length: u16,
    pub transport: TransportSize,
}

impl MultiReadItem {
    /// A byte read from a data block.
    pub fn db(db: u16, start: u32, length: u16) -> (r: Self)
        ensures
            r == (MultiReadItem {
                area: Area::DataBlock,
                db_number: db,
                start,
                length,
                transport: TransportSize::Byte,
            }),
    {
        MultiReadItem { area: Area::DataBlock, db_number: db, start, length, transport: TransportSize::Byte }
    }
}

/// One region to write in a multi-variable write.
#[derive(Debug, Clone)]
pub struct MultiWriteItem {
    pub area: Area,
    pub db_number: u16,
    pub start: u32,
    pub data: Vec<u8>,
}

impl MultiWriteItem {
    /// A byte write to a data block.
    pub fn db(db: u16, start: u32, data: Vec<u8>) -> (r: Self)
        ensures
            r.area == Area::DataBlock,
            r.db_number == db,
            r.start == start,
            r.data@ == data@,
    {
        MultiWriteItem { area: Area::DataBlock, db_number: db, start, data }
    }
}

/// The bytes a PDU of `pdu` bytes leaves for items: the PDU size less the S7
/// header and the function/count bytes, and never below zero.
pub open spec fn payload_limit(pdu: u16) -> int {
    if pdu >= 12 {
        pdu - 12
    } else {
        0
    }
}

/// The answer bytes a read of `len` bytes takes: a 4-byte item header, the data,
/// and a pad byte after odd lengths.
pub open spec fn read_item_cost(len: u16) -> int {
    4 + len + len % 2
}

/// The answer bytes of `items[s..e]`.
pub open spec fn read_cost(items: Seq<MultiReadItem>, s: int, e: int) -> int
    decreases e - s,
{
    if e <= s {
        0
    } else {
        read_cost(items, s, e - 1) + read_item_cost(items[e - 1].length)
    }
}

/// `items[s..e]` can go in one read PDU: at most 20 items, and either a single
/// item or addresses and answers that fit the PDU.
pub open spec fn read_batch_fits(items: Seq<MultiReadItem>, s: int, e: int, pdu: u16) -> bool {
    e - s <= 20 && (e - s == 1 || (12 * (e - s) <= payload_limit(pdu) && read_cost(items, s, e)
        <= payload_limit(pdu)))
}

/// The request bytes a write of `len` bytes takes: its 12-byte address, a 4-byte
/// data header, the data, and a pad byte after odd lengths.
pub open spec fn write_item_cost(len: nat) -> int {
    16 + len as int + len as int % 2
}

/// The request bytes of `items[s..e]`.
pub open spec fn write_cost(items: Seq<MultiWriteItem>, s: int, e: int) -> int
    decreases e - s,
{
    if e <= s {
        0
    } else {
        write_cost(items, s, e - 1) + write_item_cost(items[e - 1].data@.len())
    }
}

/// `items[s..e]` can go in one write PDU: at most 20 items, and either a single
/// item or a request that fits the PDU.
pub open spec fn write_batch_fits(items: Seq<MultiWriteItem>, s: int, e: int, pdu: u16) -> bool {
    e - s <= 20 && (e - s == 1 || write_cost(items, s, e) <= payload_limit(pdu))
}

/// `plan` cuts `0..n` into consecutive non-empty batches, in order.
pub open spec fn is_partition(plan: Seq<(usize, usize)>, n: nat) -> bool {
    &&& (n == 0 <==> plan.len() == 0)
    &&& (plan.len() > 0 ==> plan[0].0 == 0 && plan.last().1 == n)
    &&& forall|i: int| 0 <= i < plan.len() - 1 ==> #[trigger] plan[i].1 == plan[i + 1].0
    &&& forall|i: int| 0 <= i < plan.len() ==> #[trigger] plan[i].0 < plan[i].1
}

/// Batch `b` of a read fits, and taking one more item would not.
pub open spec fn read_batch_ok(items: Seq<MultiReadItem>, pdu: u16, b: (usize, usize)) -> bool {
    read_batch_fits(items, b.0 as int, b.1 as int, pdu) && (b.1 == items.len() || !read_batch_fits(
        items,
        b.0 as int,
        b.1 + 1,
        pdu,
    ))
}

/// Batch `b` of a write fits, and taking one more item would not.
pub open spec fn write_batch_ok(items: Seq<MultiWriteItem>, pdu: u16, b: (usize, usize)) -> bool {
    write_batch_fits(items, b.0 as int, b.1 as int, pdu) && (b.1 == items.len() || !write_batch_fits(
        items,
        b.0 as int,
        b.1 + 1,
        pdu,
    ))
}

/// The read plan: a partition whose every batch fits and is as long as it can be.
pub open spec fn is_read_plan(items: Seq<MultiReadItem>, pdu: u16, plan: Seq<(usize, usize)>) -> bool {
    &&& is_partition(plan, items.len())
    &&& forall|i: int| 0 <= i < plan.len() ==> read_batch_ok(items, pdu, #[trigger] plan[i])
}

/// The write plan: a partition whose every batch fits and is as long as it can be.
pub open spec fn is_write_plan(items: Seq<MultiWriteItem>, pdu: u16, plan: Seq<(usize, usize)>) -> bool {
    &&& is_partition(plan, items.len())
    &&& forall|i: int| 0 <= i < plan.len() ==> write_batch_ok(items, pdu, #[trigger] plan[i])
}

/// The end of the read batch that starts at `start`: as many items as fit.
pub fn read_batch_end(items: &[MultiReadItem], start: usize, pdu_size: u16) -> (e: usize)
    requires
        start < items@.len(),
    ensures
        start < e <= items@.len(),
        read_batch_fits(items@, start as int, e as int, pdu_size),
        e == items@.len() || !read_batch_fits(items@, start as int, e + 1, pdu_size),
{
    let limit: u64 = if pdu_size >= 12 {
        (pdu_size - 12) as u64
    } else {
        0
    };
    let mut e = start;
    let mut req: u64 = 0;
    let mut resp: u64 = 0;
    while e < items.len() && e - start < MAX_ITEMS_PER_PDU
        invariant
            start <= e <= items@.len(),
            e - start <= 20,
            limit == payload_limit(pdu_size),
            req == 12 * (e - start),
            resp == read_cost(items@, start as int, e as int),
            resp <= 20 * 65540,
            e > start ==> read_batch_fits(items@, start as int, e as int, pdu_size),
        decreases items@.len() - e,
    {
        let len = items[e].length as u64;
        let cost: u64 = 4 + len + len % 2;
        if e > start && (req + 12 > limit || resp + cost > limit) {
            return e;
        }
        req = req + 12;
        resp = resp + cost;
        e = e + 1;
    }
    e
}

/// The end of the write batch that starts at `start`: as many items as fit.
pub fn write_batch_end(items: &[MultiWriteItem], start: usize, pdu_size: u16) -> (e: usize)
    requires
        start < items@.len(),
    ensures
        start < e <= items@.len(),
        write_batch_fits(items@, start as int, e as int, pdu_size),
        e == items@.len() || !write_batch_fits(items@, start as int, e + 1, pdu_size),
{
    let limit: u128 = if pdu_size >= 12 {
        (pdu_size - 12) as u128
    } else {
        0
    };
    let mut e = start;
    let mut used: u128 = 0;
    while e < items.len() && e - start < MAX_ITEMS_PER_PDU
        invariant
            start <= e <= items@.len(),
            e - start <= 20,
            limit == payload_limit(pdu_size),
            used == write_cost(items@, start as int, e as int),
            used <= (e - start) * (0x1_0000_0000_0000_0000u128 + 17),
            e > start ==> write_batch_fits(items@, start as int, e as int, pdu_size),
        decreases items@.len() - e,
    {
        let len = items[e].data.len() as u128;
        let cost: u128 = 16 + len + len % 2;
        if e > start && used + cost > limit {
            return e;
        }
        used = used + cost;
        e = e + 1;
    }
    e
}

proof fn lemma_partition_step(plan: Seq<(usize, usize)>, s: usize, e: usize)
    requires
        plan.len() == 0 || plan.last().1 == s,
        plan.len() > 0 ==> plan[0].0 == 0,
        plan.len() == 0 ==> s == 0,
        forall|i: int| 0 <= i < plan.len() - 1 ==> #[trigger] plan[i].1 == plan[i + 1].0,
        forall|i: int| 0 <= i < plan.len() ==> #[trigger] plan[i].0 < plan[i].1,
        s < e,
    ensures
        ({
            let p = plan.push((s, e));
            &&& p[0].0 == 0
            &&& p.last().1 == e
            &&& forall|i: int| 0 <= i < p.len() - 1 ==> #[trigger] p[i].1 == p[i + 1].0
            &&& forall|i: int| 0 <= i < p.len() ==> #[trigger] p[i].0 < p[i].1
        }),
{
    let p = plan.push((s, e));
    assert forall|i: int| 0 <= i < p.len() - 1 implies #[trigger] p[i].1 == p[i + 1].0 by {
        if i < plan.len() - 1 {
            assert(p[i] == plan[i] && p[i + 1] == plan[i + 1]);
        }
    }
    assert forall|i: int| 0 <= i < p.len() implies #[trigger] p[i].0 < p[i].1 by {
        if i < plan.len() {
            assert(p[i] == plan[i]);
        }
    }
}

/// Splits a multi-variable read into PDUs: consecutive batches, each as long
/// as the 20-item limit and the PDU size allow (a single item always goes).
pub fn plan_read_batches(items: &[MultiReadItem], pdu_size: u16) -> (plan: Vec<(usize, usize)>)
    ensures
        is_read_plan(items@, pdu_size, plan@),
{
    let mut plan: Vec<(usize, usize)> = Vec::new();
    let mut s: usize = 0;
    while s < items.len()
        invariant
            s <= items@.len(),
            plan@.len() == 0 ==> s == 0,
            plan@.len() > 0 ==> plan@[0].0 == 0 && plan@.last().1 == s,
            forall|i: int| 0 <= i < plan@.len() - 1 ==> #[trigger] plan@[i].1 == plan@[i + 1].0,
            forall|i: int| 0 <= i < plan@.len() ==> #[trigger] plan@[i].0 < plan@[i].1,
            forall|i: int| 0 <= i < plan@.len() ==> read_batch_ok(items@, pdu_size, #[trigger] plan@[i]),
        decreases items@.len() - s,
    {
        let e = read_batch_end(items, s, pdu_size);
        proof {
            lemma_partition_step(plan@, s, e);
        }
        let ghost old_plan = plan@;
        plan.push((s, e));
        assert forall|i: int| 0 <= i < plan@.len() implies read_batch_ok(items@, pdu_size, #[trigger] plan@[i]) by {
            if i < old_plan.len() {
                assert(plan@[i] == old_plan[i]);
            }
        }
        s = e;
    }
    plan
}

/// Splits a multi-variable write into PDUs: consecutive batches, each as long
/// as the 20-item limit and the PDU size allow (a single item always goes).
pub fn plan_write_batches(items: &[MultiWriteItem], pdu_size: u16) -> (plan: Vec<(usize, usize)>)
    ensures
        is_write_plan(items@, pdu_size, plan@),
{
    let mut plan: Vec<(usize, usize)> = Vec::new();
    let mut s: usize = 0;
    while s < items.len()
        invariant
            s <= items@.len(),
            plan@.len() == 0 ==> s == 0,
            plan@.len() > 0 ==> plan@[0].0 == 0 && plan@.last().1 == s,
            forall|i: int| 0 <= i < plan@.len() - 1 ==> #[trigger] plan@[i].1 == plan@[i + 1].0,
            forall|i: int| 0 <= i < plan@.len() ==> #[trigger] plan@[i].0 < plan@[i].1,
            forall|i: int| 0 <= i < plan@.len() ==> write_batch_ok(items@, pdu_size, #[trigger] plan@[i]),
        decreases items@.len() - s,
    {
        let e = write_batch_end(items, s, pdu_size);
        proof {
            lemma_partition_step(plan@, s, e);
        }
        let ghost old_plan = plan@;
        plan.push((s, e));
        assert forall|i: int| 0 <= i < plan@.len() implies write_batch_ok(items@, pdu_size, #[trigger] plan@[i]) by {
            if i < old_plan.len() {
                assert(plan@[i] == old_plan[i]);
            }
        }
        s = e;
    }
    plan
}

proof fn lemma_partition_cover_from(plan: Seq<(usize, usize)>, n: nat, i: int, k: int)
    requires
        is_partition(plan, n),
        0 <= i < plan.len(),
        plan[i].0 <= k < n,
    ensures
        exists|j: int| #![trigger plan[j]] i <= j < plan.len() && plan[j].0 <= k < plan[j].1,
    decreases plan.len() - i,
{
    if k >= plan[i].1 {
        if i == plan.len() - 1 {
            assert(false);
        } else {
            assert(plan[i].1 == plan[i + 1].0);
            lemma_partition_cover_from(plan, n, i + 1, k);
        }
    } else {
        assert(i <= i < plan.len() && plan[i].0 <= k < plan[i].1);
    }
}

proof fn lemma_partition_ordered(plan: Seq<(usize, usize)>, n: nat, i: int, j: int)
    requires
        is_partition(plan, n),
        0 <= i < j < plan.len(),
    ensures
        plan[i].1 <= plan[j].0,
    decreases j - i,
{
    assert(plan[i].1 == plan[i + 1].0);
    if i + 1 < j {
        lemma_partition_ordered(plan, n, i + 1, j);
        assert(plan[i + 1].0 < plan[i + 1].1);
    }
}

/// Item `k` lies in some batch of `plan`.
pub open spec fn in_some_batch(plan: Seq<(usize, usize)>, k: int) -> bool {
    exists|j: int| #![trigger plan[j]] 0 <= j < plan.len() && plan[j].0 <= k < plan[j].1
}

/// Every item lies in exactly one batch of a partition, and the batches come in
/// the items' order.
pub proof fn lemma_partition_covers_once(plan: Seq<(usize, usize)>, n: nat)
    requires
        is_partition(plan, n),
    ensures
        forall|k: int| 0 <= k < n ==> #[trigger] in_some_batch(plan, k),
        forall|i: int, j: int|
            0 <= i < j < plan.len() ==> #[trigger] plan[i].1 <= #[trigger] plan[j].0,
{
    assert forall|k: int| 0 <= k < n implies #[trigger] in_some_batch(plan, k) by {
        lemma_partition_cover_from(plan, n, 0, k);
    }
    assert forall|i: int, j: int| 0 <= i < j < plan.len() implies #[trigger] plan[i].1 <= #[trigger] plan[j].0 by {
        lemma_partition_ordered(plan, n, i, j);
    }
}

/// The address a multi-read item is requested with: byte transport, bit 0.
pub open spec fn read_address(it: MultiReadItem) -> AddressItem {
    AddressItem {
        area: it.area,
        db_number: it.db_number,
        start: it.start,
        bit_offset: 0,
        length: it.length,
        transport: TransportSize::Byte,
    }
}

/// The request parameters for reading `items[s..e]`.
pub fn read_batch_params(items: &[MultiReadItem], s: usize, e: usize) -> (r: Vec<u8>)
    requires
        s <= e <= items@.len(),
        forall|k: int| s <= k < e ==> #[trigger] items@[k].start * 8 <= u32::MAX,
    ensures
        r@ == read_var_request_bytes(items@.subrange(s as int, e as int).map_values(|it: MultiReadItem| read_address(it))),
{
    let mut addrs: Vec<AddressItem> = Vec::new();
    let mut k = s;
    while k < e
        invariant
            s <= k <= e <= items@.len(),
            addrs@ == items@.subrange(s as int, k as int).map_values(|it: MultiReadItem| read_address(it)),
        decreases e - k,
    {
        let it = items[k];
        addrs.push(
            AddressItem {
                area: it.area,
                db_number: it.db_number,
                start: it.start,
                bit_offset: 0,
                length: it.length,
                transport: TransportSize::Byte,
            },
        );
        k = k + 1;
        assert(addrs@ =~= items@.subrange(s as int, k as int).map_values(|it: MultiReadItem| read_address(it)));
    }
    let req = ReadVarRequest { items: addrs };
    let mut buf: Vec<u8> = Vec::new();
    assert forall|i: int| 0 <= i < req.items@.len() implies addr_fits(#[trigger] req.items@[i]) by {
        assert(req.items@[i] == read_address(items@[s + i]));
    }
    req.encode(&mut buf);
    assert(buf@ =~= read_var_request_bytes(req.items@));
    buf
}

/// The item a multi-write item is requested with: byte transport, bit 0, and
/// its length (cut to 16 bits) as element count.
pub open spec fn write_model(it: MultiWriteItem) -> WriteItemModel {
    WriteItemModel {
        address: AddressItem {
            area: it.area,
            db_number: it.db_number,
            start: it.start,
            bit_offset: 0,
            length: (it.data@.len() % 65536) as u16,
            transport: TransportSize::Byte,
        },
        data: it.data@,
    }
}

/// The request parameters for writing `items[s..e]`.
pub fn write_batch_params(items: &[MultiWriteItem], s: usize, e: usize) -> (r: Vec<u8>)
    requires
        s <= e <= items@.len(),
        forall|k: int| s <= k < e ==> #[trigger] items@[k].start * 8 <= u32::MAX,
    ensures
        r@ == write_var_request_bytes(items@.subrange(s as int, e as int).map_values(|it: MultiWriteItem| write_model(it))),
{
    let mut ws: Vec<WriteItem> = Vec::new();
    let mut k = s;
    while k < e
        invariant
            s <= k <= e <= items@.len(),
            forall|k2: int| s <= k2 < e ==> #[trigger] items@[k2].start * 8 <= u32::MAX,
            write_items_view(ws@) == items@.subrange(s as int, k as int).map_values(|it: MultiWriteItem| write_model(it)),
            ws@.len() == k - s,
        decreases e - k,
    {
        let it = &items[k];
        let data = copy_range(it.data.as_slice(), 0, it.data.len());
        assert(data@ =~= it.data@);
        let ghost prev = ws@;
        ws.push(
            WriteItem {
                address: AddressItem {
                    area: it.area,
                    db_number: it.db_number,
                    start: it.start,
                    bit_offset: 0,
                    length: (it.data.len() % 65536) as u16,
                    transport: TransportSize::Byte,
                },
                data,
            },
        );
        k = k + 1;
        assert(ws@ == prev.push(ws@.last()));
        assert(ws@.last()@ == write_model(items@[k - 1]));
        assert forall|j: int| 0 <= j < ws@.len() implies #[trigger] write_items_view(ws@)[j] == items@.subrange(s as int, k as int).map_values(|it: MultiWriteItem| write_model(it))[j] by {
            if j < prev.len() {
                assert(ws@[j] == prev[j]);
                assert(write_items_view(prev)[j] == items@.subrange(s as int, k - 1).map_values(|it: MultiWriteItem| write_model(it))[j]);
            }
        }
        assert(write_items_view(ws@) =~= items@.subrange(s as int, k as int).map_values(|it: MultiWriteItem| write_model(it)));
    }
    let req = WriteVarRequest { items: ws };
    let mut buf: Vec<u8> = Vec::new();
    assert forall|i: int| 0 <= i < req.items@.len() implies addr_fits(#[trigger] req.items@[i].address) by {
        assert(write_items_view(req.items@)[i] == write_model(items@[s + i]));
    }
    req.encode(&mut buf);
    assert(buf@ =~= write_var_request_bytes(write_items_view(req.items@)));
    buf
}

/// The header of a request with the given parameter and data sizes (each cut to
/// 16 bits).
pub open spec fn request_header(pdu_type: PduType, pdu_ref: u16, plen: nat, dlen: nat) -> S7Header {
    S7Header {
        pdu_type,
        reserved: 0,
        pdu_ref,
        param_len: (plen % 65536) as u16,
        data_len: (dlen % 65536) as u16,
        error_class: None,
        error_code: None,
    }
}

/// The PDU of a request: the S7 header, the parameters and the data.
pub open spec fn request_pdu(pdu_type: PduType, pdu_ref: u16, param: Seq<u8>, data: Seq<u8>) -> Seq<u8> {
    s7_header_bytes(request_header(pdu_type, pdu_ref, param.len(), data.len())) + param + data
}

/// The bytes on the wire for a request: TPKT around a last COTP data unit around
/// the request's PDU.
pub open spec fn request_frame(pdu_type: PduType, pdu_ref: u16, param: Seq<u8>, data: Seq<u8>) -> Seq<u8> {
    tpkt_bytes(cotp_bytes(CotpModel::Data { tpdu_nr: 0, last: true, payload: request_pdu(pdu_type, pdu_ref, param, data) }))
}

/// Builds the frame that carries a request; one longer than a TPKT frame can
/// hold is refused.
pub fn request_frame_bytes(param: &[u8], data: &[u8], pdu_ref: u16, pdu_type: PduType) -> (r: Result<
    Vec<u8>,
    Error,
>)
    ensures
        param@.len() + data@.len() + 17 <= u16::MAX ==> r == Ok::<Vec<u8>, Error>(r->Ok_0) && r->Ok_0@
            == request_frame(pdu_type, pdu_ref, param@, data@),
        param@.len() + data@.len() + 17 > u16::MAX ==> (r matches Err(
            Error::Proto(ProtoError::EncodingFailed(m)),
        ) && (param@.len() + data@.len() + 17 <= u64::MAX ==> m@ == crate::proto::tpkt::frame_too_large_text(
            (param@.len() + data@.len() + 17) as nat,
        ))),
{
    let header = S7Header {
        pdu_type,
        reserved: 0,
        pdu_ref,
        param_len: (param.len() % 65536) as u16,
        data_len: (data.len() % 65536) as u16,
        error_class: None,
        error_code: None,
    };
    let mut s7b: Vec<u8> = Vec::new();
    header.encode(&mut s7b);
    push_slice(&mut s7b, param);
    push_slice(&mut s7b, data);
    let dt = CotpPdu::Data { tpdu_nr: 0, last: true, payload: s7b };
    let mut cotpb: Vec<u8> = Vec::new();
    dt.encode(&mut cotpb);
    let frame = TpktFrame { payload: cotpb };
    let mut out: Vec<u8> = Vec::new();
    match frame.encode(&mut out) {
        Ok(()) => {
            assert(out@ =~= request_frame(pdu_type, pdu_ref, param@, data@));
            Ok(out)
        },
        Err(e) => Err(Error::Proto(e)),
    }
}

/// The payload length a TPKT header announces; below 4 bytes of total length is
/// not an answer.
pub fn tpkt_payload_len(hdr: &[u8]) -> (r: Result<usize, Error>)
    requires
        hdr@.len() >= 4,
    ensures
        be16_at(hdr@, 2) < 4 ==> r == Err::<usize, Error>(Error::UnexpectedResponse),
        be16_at(hdr@, 2) >= 4 ==> r == Ok::<usize, Error>((be16_at(hdr@, 2) - 4) as usize),
{
    let total = read_be16(hdr, 2) as usize;
    if total < 4 {
        return Err(Error::UnexpectedResponse);
    }
    Ok(total - 4)
}

/// What reading an answer's TPKT payload gives: the S7 header and the bytes
/// after it. The COTP data header must be present with code 0xF0.
pub open spec fn reply_spec(p: Seq<u8>) -> Result<(S7Header, Seq<u8>), Error> {
    if p.len() < 3 || p[1] != 0xF0 {
        Err(Error::UnexpectedResponse)
    } else {
        match s7_header_decode_spec(p.subrange(3, p.len() as int)) {
            Err(e) => Err(Error::Proto(e)),
            Ok((h, n)) => Ok((h, p.subrange(3 + n, p.len() as int))),
        }
    }
}

/// Reads an answer's TPKT payload: the S7 header and the body after it.
pub fn parse_reply(payload: &[u8]) -> (r: Result<(S7Header, Vec<u8>), Error>)
    ensures
        match reply_spec(payload@) {
            Ok((h, b)) => (r matches Ok((h2, b2)) && h2 == h && b2@ == b),
            Err(e) => r == Err::<(S7Header, Vec<u8>), Error>(e),
        },
{
    if payload.len() < 3 || payload[1] != 0xF0 {
        return Err(Error::UnexpectedResponse);
    }
    let rest = &payload[3..payload.len()];
    match S7Header::decode(rest) {
        Err(e) => Err(Error::Proto(e)),
        Ok((h, n)) => {
            let body = copy_range(payload, 3 + n, payload.len());
            Ok((h, body))
        },
    }
}

/// The next PDU reference after `current`, wrapping at 65536.
pub fn next_pdu_ref(current: u16) -> (r: u16)
    ensures
        r == (current + 1) % 65536,
{
    if current == 0xFFFF {
        0
    } else {
        current + 1
    }
}

/// The description of an S7 error class and code.
pub open spec fn error_description(ec: u8, ecd: u8) -> &'static str {
    if ec == 0x81 && ecd == 0x04 {
        "function not supported or access denied by PLC"
    } else if ec == 0x81 && ecd == 0x01 {
        "reserved by HW or SW function not available"
    } else if ec == 0x82 && ecd == 0x04 {
        "PLC is in STOP mode, function not possible"
    } else if ec == 0x05 && ecd == 0x01 {
        "invalid block type number"
    } else if ec == 0xD2 && ecd == 0x01 {
        "object already exists, download rejected"
    } else if ec == 0xD2 && ecd == 0x02 {
        "object does not exist, upload failed"
    } else if ec == 0xD6 && ecd == 0x01 {
        "password protection violation"
    } else if ec == 0xD6 && ecd == 0x05 {
        "insufficient privilege for this operation"
    } else {
        "unknown error"
    }
}

/// Describes an S7 error class and code.
pub fn s7_error_description(ec: u8, ecd: u8) -> (r: &'static str)
    ensures
        r@ == error_description(ec, ecd)@,
{
    match (ec, ecd) {
        (0x81, 0x04) => "function not supported or access denied by PLC",
        (0x81, 0x01) => "reserved by HW or SW function not available",
        (0x82, 0x04) => "PLC is in STOP mode, function not possible",
        (0x05, 0x01) => "invalid block type number",
        (0xD2, 0x01) => "object already exists, download rejected",
        (0xD2, 0x02) => "object does not exist, upload failed",
        (0xD6, 0x01) => "password protection violation",
        (0xD6, 0x05) => "insufficient privilege for this operation",
        _ => "unknown error",
    }
}

/// The message of a PLC error in `context`.
pub open spec fn plc_error_message(context: Seq<char>, ec: u8, ecd: u8) -> Seq<char> {
    context + ": "@ + error_description(ec, ecd)@ + " (error_class=0x"@ + hex2(ec) + ", error_code=0x"@
        + hex2(ecd) + ")"@
}

/// An answer whose header carries a non-zero error class or code is a PLC error
/// with code `class * 256 + code`; any other answer passes.
pub fn check_plc_error(header: &S7Header, context: &str) -> (r: Result<(), Error>)
    ensures
        match (header.error_class, header.error_code) {
            (Some(ec), Some(ecd)) => if ec != 0 || ecd != 0 {
                r matches Err(Error::PlcError { code, message }) && code == ec as u32 * 256 + ecd
                    && message@ == plc_error_message(context@, ec, ecd)
            } else {
                r is Ok
            },
            _ => r is Ok,
        },
{
    match (header.error_class, header.error_code) {
        (Some(ec), Some(ecd)) => {
            if ec != 0 || ecd != 0 {
                let mut m = text(context);
                m.append(": ");
                m.append(s7_error_description(ec, ecd));
                m.append(" (error_class=0x");
                push_hex2(&mut m, ec);
                m.append(", error_code=0x");
                push_hex2(&mut m, ecd);
                m.append(")");
                assert(m@ =~= plc_error_message(context@, ec, ecd));
                return Err(Error::PlcError { code: ec as u32 * 256 + ecd as u32, message: m });
            }
            Ok(())
        },
        _ => Ok(()),
    }
}

/// The body of a read answer after the two echoed parameter bytes (when there
/// are two).
pub open spec fn skip_echo(b: Seq<u8>) -> Seq<u8> {
    if b.len() >= 2 {
        b.subrange(2, b.len() as int)
    } else {
        b
    }
}

/// The first item, counted from `k`, whose return code is not success (0xFF);
/// `d.len()` when all succeeded.
pub open spec fn first_failed(d: Seq<DataItemModel>, k: int) -> int
    decreases d.len() - k,
{
    if k >= d.len() {
        d.len() as int
    } else if d[k].return_code != 0xFF {
        k
    } else {
        first_failed(d, k + 1)
    }
}

/// Reads the answer to a batch of `count` reads that starts at item
/// `batch_start`: the data of each item, or the first failed item's error.
pub fn read_batch_result(body: &[u8], batch_start: usize, count: usize) -> (r: Result<Vec<Vec<u8>>, Error>)
    requires
        batch_start + count <= usize::MAX,
    ensures
        match data_items_decode_spec(skip_echo(body@), 0, count as nat) {
            Err(e) => r == Err::<Vec<Vec<u8>>, Error>(Error::Proto(e)),
            Ok((d, _)) => {
                let f = first_failed(d, 0);
                if f < d.len() {
                    r matches Err(Error::PlcError { code, message }) && code == d[f].return_code as u32
                        && message@ == "item "@ + decimal((batch_start + f) as nat) + " error"@
                } else {
                    r matches Ok(v) && v@.len() == d.len() && forall|i: int|
                        0 <= i < d.len() ==> (#[trigger] v@[i])@ == d[i].data
                }
            },
        },
{
    let start: usize = if body.len() >= 2 {
        2
    } else {
        0
    };
    let rest = &body[start..body.len()];
    assert(rest@ == skip_echo(body@));
    let (items, q) = match decode_data_items(rest, 0, count) {
        Ok(x) => x,
        Err(e) => {
            return Err(Error::Proto(e));
        },
    };
    let ghost d = crate::proto::s7::read_var::data_items_view(items@);
    proof {
        crate::proto::s7::read_var::lemma_data_items_decode_len(rest@, 0, count as nat);
    }
    let mut out: Vec<Vec<u8>> = Vec::new();
    let mut i: usize = 0;
    while i < items.len()
        invariant
            i <= items@.len(),
            d == crate::proto::s7::read_var::data_items_view(items@),
            rest@ == skip_echo(body@),
            data_items_decode_spec(rest@, 0, count as nat) == Ok::<(Seq<DataItemModel>, int), ProtoError>((d, q as int)),
            batch_start + count <= usize::MAX,
            items@.len() == count,
            first_failed(d, 0) == first_failed(d, i as int),
            out@.len() == i,
            forall|j: int| 0 <= j < i ==> (#[trigger] out@[j])@ == d[j].data,
        decreases items@.len() - i,
    {
        let it = &items[i];
        assert(d[i as int] == items@[i as int]@);
        if it.return_code != 0xFF {
            let m = numbered_message("item ", (batch_start + i) as u64, " error");
            return Err(Error::PlcError { code: it.return_code as u32, message: m });
        }
        out.push(copy_range(it.data.as_slice(), 0, it.data.len()));
        i = i + 1;
    }
    Ok(out)
}

/// Checks the return codes of a batch of `count` writes that starts at item
/// `batch_start`.
pub fn write_batch_result(body: &[u8], batch_start: usize, count: usize) -> (r: Result<(), Error>)
    requires
        batch_start + count <= usize::MAX,
    ensures
        ({
            let b = skip_echo(body@);
            if b.len() < count {
                r == Err::<(), Error>(Error::Proto(ProtoError::BufferTooShort { need: 1, have: 0 }))
            } else {
                let f = crate::ascii::find_from(
                    b.subrange(0, count as int).map_values(|c: u8| if c == 0xFF { 0u8 } else { 1u8 }),
                    1,
                    0,
                );
                if f < count {
                    r matches Err(Error::PlcError { code, message }) && code == b[f] as u32 && message@
                        == "item "@ + decimal((batch_start + f) as nat) + " write error"@
                } else {
                    r is Ok
                }
            }
        }),
{
    let start: usize = if body.len() >= 2 {
        2
    } else {
        0
    };
    let rest = &body[start..body.len()];
    assert(rest@ == skip_echo(body@));
    if rest.len() < count {
        return Err(Error::Proto(ProtoError::BufferTooShort { need: 1, have: 0 }));
    }
    let ghost flags = rest@.subrange(0, count as int).map_values(|c: u8| if c == 0xFF { 0u8 } else { 1u8 });
    let mut i: usize = 0;
    while i < count
        invariant
            i <= count <= rest@.len(),
            rest@ == skip_echo(body@),
            batch_start + count <= usize::MAX,
            flags == rest@.subrange(0, count as int).map_values(|c: u8| if c == 0xFF { 0u8 } else { 1u8 }),
            crate::ascii::find_from(flags, 1, 0) == crate::ascii::find_from(flags, 1, i as int),
        decreases count - i,
    {
        assert(flags[i as int] == (if rest@[i as int] == 0xFF { 0u8 } else { 1u8 }));
        if rest[i] != 0xFF {
            let m = numbered_message("item ", (batch_start + i) as u64, " write error");
            return Err(Error::PlcError { code: rest[i] as u32, message: m });
        }
        i = i + 1;
    }
    Ok(())
}

} // verus!
