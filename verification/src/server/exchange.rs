//! What a client of this library gets from the simulated PLC: its read and
//! write requests, framed as the client frames them, answered by `respond`,
//! and the answers read back as the client reads them.
use vstd::prelude::*;
use crate::ascii::find_from;
use crate::client::{
    first_failed, read_address, request_header, request_pdu, skip_echo, write_model, MultiReadItem,
    MultiWriteItem,
};
use crate::error::ProtoError;
use crate::proto::cotp::{cotp_bytes, cotp_decode_spec, lemma_cotp_roundtrip, CotpModel};
use crate::proto::s7::header::{lemma_s7_header_roundtrip, s7_header_bytes, PduType, TransportSize};
use crate::proto::s7::read_var::{
    data_items_bytes, data_items_decode_spec, lemma_data_items_roundtrip, lemma_read_var_request_roundtrip,
    read_var_request_bytes, AddressItem, DataItemModel,
};
use crate::proto::s7::write_var::{lemma_write_var_request_roundtrip, write_var_request_bytes, WriteItemModel};
use crate::server::dispatch::{
    ack_header, cell_after, classify, lemma_served_write_then_read, read_replies, reply_spec, RequestModel,
};
use crate::server::store::DataStore;

verus! {

/// The last COTP data unit that carries `pdu`, as both sides send it.
pub open spec fn data_unit(pdu: Seq<u8>) -> Seq<u8> {
    cotp_bytes(CotpModel::Data { tpdu_nr: 0, last: true, payload: pdu })
}

/// The PDU of a client read of `items` with reference `pdu_ref`.
pub open spec fn read_request_pdu(pdu_ref: u16, items: Seq<MultiReadItem>) -> Seq<u8> {
    request_pdu(
        PduType::Job,
        pdu_ref,
        read_var_request_bytes(items.map_values(|it: MultiReadItem| read_address(it))),
        Seq::<u8>::empty(),
    )
}

/// The PDU of a client write of `items` with reference `pdu_ref`.
pub open spec fn write_request_pdu(pdu_ref: u16, items: Seq<MultiWriteItem>) -> Seq<u8> {
    request_pdu(
        PduType::Job,
        pdu_ref,
        write_var_request_bytes(items.map_values(|it: MultiWriteItem| write_model(it))),
        Seq::<u8>::empty(),
    )
}

/// The first failed item of items that all succeeded is past the end.
proof fn lemma_none_failed(d: Seq<DataItemModel>, k: int)
    requires
        0 <= k,
        forall|i: int| 0 <= i < d.len() ==> (#[trigger] d[i]).return_code == 0xFF,
    ensures
        first_failed(d, k) == d.len(),
    decreases d.len() - k,
{
    if k < d.len() {
        lemma_none_failed(d, k + 1);
    }
}

/// A string with no byte `c` from `k` on has its first `c` past the end.
proof fn lemma_not_found(s: Seq<u8>, c: u8, k: int)
    requires
        0 <= k,
        forall|i: int| 0 <= i < s.len() ==> #[trigger] s[i] != c,
    ensures
        find_from(s, c, k) == s.len(),
    decreases s.len() - k,
{
    if k < s.len() {
        lemma_not_found(s, c, k + 1);
    }
}

/// The client reads an answer PDU of the PLC as its AckData header and the rest.
proof fn lemma_client_reads_ack(pdu_ref: u16, func: u8, count: u8, data: Seq<u8>)
    ensures
        crate::client::reply_spec(data_unit(crate::server::dispatch::ack_data(pdu_ref, func, count, data)))
            == Ok::<(crate::proto::s7::header::S7Header, Seq<u8>), crate::error::Error>(
            (ack_header(pdu_ref, 2, (data.len() % 65536) as u16, 0, 0), seq![func, count] + data),
        ),
{
    let h = ack_header(pdu_ref, 2, (data.len() % 65536) as u16, 0, 0);
    let reply = crate::server::dispatch::ack_data(pdu_ref, func, count, data);
    let p = data_unit(reply);
    assert(p.subrange(3, p.len() as int) =~= s7_header_bytes(h) + (seq![func, count] + data));
    lemma_s7_header_roundtrip(h, seq![func, count] + data);
    assert(p.subrange(15, p.len() as int) =~= seq![func, count] + data);
}

/// The simulated PLC reads the PDU of a client request with an empty data part
/// as its header followed by the parameters.
proof fn lemma_plc_reads_request(pdu_ref: u16, param: Seq<u8>)
    ensures
        crate::proto::s7::header::s7_header_decode_spec(request_pdu(PduType::Job, pdu_ref, param, Seq::<u8>::empty()))
            == Ok::<(crate::proto::s7::header::S7Header, int), ProtoError>(
            (request_header(PduType::Job, pdu_ref, param.len(), 0), 10),
        ),
        request_pdu(PduType::Job, pdu_ref, param, Seq::<u8>::empty()).subrange(
            10,
            request_pdu(PduType::Job, pdu_ref, param, Seq::<u8>::empty()).len() as int,
        ) == param,
{
    let h = request_header(PduType::Job, pdu_ref, param.len(), 0);
    let pdu = request_pdu(PduType::Job, pdu_ref, param, Seq::<u8>::empty());
    assert(pdu =~= s7_header_bytes(h) + param);
    lemma_s7_header_roundtrip(h, param);
    assert(pdu.subrange(10, pdu.len() as int) =~= param);
}

/// A client read of up to 255 regions, each starting below byte 0x20_0000 and
/// shorter than 8192 bytes, answered by the simulated PLC: the PLC receives the
/// request's PDU and reads it as those regions, and the client reads from the
/// answer an error-free header with the request's reference and, for each
/// region, success and the bytes the store holds there.
pub proof fn lemma_client_read_served(s: DataStore, pdu_ref: u16, items: Seq<MultiReadItem>)
    requires
        items.len() <= 255,
        forall|k: int| 0 <= k < items.len() ==> (#[trigger] items[k]).start < 0x20_0000,
        forall|k: int| 0 <= k < items.len() ==> (#[trigger] items[k]).length < 8192,
    ensures
        ({
            let pdu = read_request_pdu(pdu_ref, items);
            let addrs = items.map_values(|it: MultiReadItem| read_address(it));
            &&& cotp_decode_spec(data_unit(pdu)) matches Ok((CotpModel::Data { payload, .. }, _))
            &&& payload == pdu
            &&& classify(pdu) == RequestModel::ReadVar { pdu_ref, items: addrs }
            &&& crate::client::reply_spec(data_unit(reply_spec(s, classify(pdu)))) matches Ok((h, body))
            &&& h.pdu_ref == pdu_ref
            &&& h.error_class == Some(0u8)
            &&& h.error_code == Some(0u8)
            &&& data_items_decode_spec(skip_echo(body), 0, items.len()) matches Ok((d, _))
            &&& d.len() == items.len()
            &&& first_failed(d, 0) == items.len()
            &&& forall|k: int|
                0 <= k < items.len() ==> (#[trigger] d[k]).data == s.cells(
                    items[k].area.code(),
                    items[k].db_number,
                    items[k].start,
                    items[k].length as nat,
                )
        }),
{
    let addrs = items.map_values(|it: MultiReadItem| read_address(it));
    let param = read_var_request_bytes(addrs);
    let pdu = read_request_pdu(pdu_ref, items);
    lemma_cotp_roundtrip(CotpModel::Data { tpdu_nr: 0, last: true, payload: pdu });
    assert forall|i: int| 0 <= i < addrs.len() implies crate::proto::s7::read_var::address_roundtrips(
        #[trigger] addrs[i],
    ) by {
        assert(addrs[i] == read_address(items[i]));
    }
    lemma_plc_reads_request(pdu_ref, param);
    lemma_read_var_request_roundtrip(addrs, Seq::<u8>::empty());
    assert(param + Seq::<u8>::empty() =~= param);
    assert(param[0] == crate::proto::s7::read_var::FUNC_READ_VAR);
    assert(classify(pdu) == RequestModel::ReadVar { pdu_ref, items: addrs });
    let replies = read_replies(s, addrs);
    assert forall|k: int| 0 <= k < items.len() implies (#[trigger] replies[k]).data == s.cells(
        items[k].area.code(),
        items[k].db_number,
        items[k].start,
        items[k].length as nat,
    ) && replies[k].return_code == 0xFF by {
        assert(addrs[k] == read_address(items[k]));
    }
    assert forall|i: int| 0 <= i < replies.len() implies (#[trigger] replies[i]).data.len() < 8192 by {
        assert(addrs[i] == read_address(items[i]));
    }
    let db = data_items_bytes(replies);
    lemma_client_reads_ack(pdu_ref, crate::proto::s7::read_var::FUNC_READ_VAR, (addrs.len() % 256) as u8, db);
    let body = seq![crate::proto::s7::read_var::FUNC_READ_VAR, (addrs.len() % 256) as u8] + db;
    assert(skip_echo(body) =~= db);
    assert(db.subrange(0, db.len() as int) =~= db);
    lemma_data_items_roundtrip(replies, db, 0);
    lemma_none_failed(replies, 0);
}

/// A client write of up to 255 regions, each starting below byte 0x20_0000
/// with less than 8192 bytes, answered by the simulated PLC: the PLC receives
/// the request's PDU and reads it as those regions with their bytes, and the
/// client reads from the answer an error-free header with the request's
/// reference and a success code for each region, so that none failed.
pub proof fn lemma_client_write_served(s: DataStore, pdu_ref: u16, items: Seq<MultiWriteItem>)
    requires
        items.len() <= 255,
        forall|k: int| 0 <= k < items.len() ==> (#[trigger] items[k]).start < 0x20_0000,
        forall|k: int| 0 <= k < items.len() ==> (#[trigger] items[k]).data@.len() < 8192,
    ensures
        ({
            let pdu = write_request_pdu(pdu_ref, items);
            let n = items.len();
            &&& cotp_decode_spec(data_unit(pdu)) matches Ok((CotpModel::Data { payload, .. }, _))
            &&& payload == pdu
            &&& classify(pdu) == RequestModel::WriteVar {
                pdu_ref,
                items: items.map_values(|it: MultiWriteItem| write_model(it)),
            }
            &&& crate::client::reply_spec(data_unit(reply_spec(s, classify(pdu)))) matches Ok((h, body))
            &&& h.pdu_ref == pdu_ref
            &&& h.error_class == Some(0u8)
            &&& h.error_code == Some(0u8)
            &&& skip_echo(body).len() >= n
            &&& skip_echo(body).subrange(0, n as int) == Seq::new(n, |i: int| 0xFFu8)
            &&& find_from(
                skip_echo(body).subrange(0, n as int).map_values(|c: u8| if c == 0xFF { 0u8 } else { 1u8 }),
                1,
                0,
            ) == n
        }),
{
    let ws = items.map_values(|it: MultiWriteItem| write_model(it));
    let param = write_var_request_bytes(ws);
    let pdu = write_request_pdu(pdu_ref, items);
    let n = items.len();
    lemma_cotp_roundtrip(CotpModel::Data { tpdu_nr: 0, last: true, payload: pdu });
    assert forall|i: int| 0 <= i < ws.len() implies crate::proto::s7::read_var::address_roundtrips(
        #[trigger] ws[i].address,
    ) by {
        assert(ws[i] == write_model(items[i]));
    }
    assert forall|i: int| 0 <= i < ws.len() implies (#[trigger] ws[i]).data.len() < 8192 by {
        assert(ws[i] == write_model(items[i]));
    }
    lemma_plc_reads_request(pdu_ref, param);
    lemma_write_var_request_roundtrip(ws, Seq::<u8>::empty());
    assert(param + Seq::<u8>::empty() =~= param);
    assert(param[0] == crate::proto::s7::write_var::FUNC_WRITE_VAR);
    assert(classify(pdu) == RequestModel::WriteVar { pdu_ref, items: ws });
    let codes = Seq::new(n % 256, |i: int| 0xFFu8);
    lemma_client_reads_ack(pdu_ref, crate::proto::s7::write_var::FUNC_WRITE_VAR, (n % 256) as u8, codes);
    let body = seq![crate::proto::s7::write_var::FUNC_WRITE_VAR, (n % 256) as u8] + codes;
    assert(skip_echo(body) =~= codes);
    assert(codes.subrange(0, n as int) =~= Seq::new(n, |i: int| 0xFFu8));
    let flags = codes.subrange(0, n as int).map_values(|c: u8| if c == 0xFF { 0u8 } else { 1u8 });
    assert forall|i: int| 0 <= i < flags.len() implies #[trigger] flags[i] != 1u8 by {
        assert(codes.subrange(0, n as int)[i] == 0xFFu8);
    }
    lemma_not_found(flags, 1, 0);
}

/// A client write of `data` to a region of an area that is not locked, then a
/// client read of the same region, both answered by the simulated PLC, give
/// the client `data` back, with success.
pub proof fn lemma_client_write_then_read(
    s0: DataStore,
    s1: DataStore,
    write_ref: u16,
    read_ref: u16,
    w: MultiWriteItem,
)
    requires
        w.start < 0x20_0000,
        w.data@.len() < 8192,
        !s0.locked().contains(w.area.code()),
        forall|a: u8, d: u16, o: u32| #[trigger]
            s1.cell(a, d, o) == cell_after(s0, classify(write_request_pdu(write_ref, seq![w])), a, d, o),
    ensures
        ({
            let r = MultiReadItem {
                area: w.area,
                db_number: w.db_number,
                start: w.start,
                length: w.data@.len() as u16,
                transport: TransportSize::Byte,
            };
            let pdu = read_request_pdu(read_ref, seq![r]);
            &&& crate::client::reply_spec(data_unit(reply_spec(s1, classify(pdu)))) matches Ok((h, body))
            &&& h.error_class == Some(0u8)
            &&& h.error_code == Some(0u8)
            &&& data_items_decode_spec(skip_echo(body), 0, 1) matches Ok((d, _))
            &&& d == seq![DataItemModel { return_code: 0xFF, data: w.data@ }]
        }),
{
    let r = MultiReadItem {
        area: w.area,
        db_number: w.db_number,
        start: w.start,
        length: w.data@.len() as u16,
        transport: TransportSize::Byte,
    };
    let wm = write_model(w);
    let ra = read_address(r);
    assert(classify(write_request_pdu(write_ref, seq![w])) == RequestModel::WriteVar {
        pdu_ref: write_ref,
        items: seq![wm],
    }) by {
        lemma_client_write_served(s0, write_ref, seq![w]);
        assert(seq![w].map_values(|it: MultiWriteItem| write_model(it)) =~= seq![wm]);
    }
    assert(s1.cells(w.area.code(), w.db_number, w.start, w.data@.len()) == w.data@) by {
        lemma_served_write_then_read(s0, s1, write_ref, wm, ra);
        assert(read_replies(s1, seq![ra])[0].data == w.data@);
    }
    lemma_client_read_served(s1, read_ref, seq![r]);
    assert(seq![r][0] == r);
}

} // verus!
