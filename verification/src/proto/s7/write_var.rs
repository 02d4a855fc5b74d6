//! S7 WriteVar job: address items, then one data item per address.
use vstd::prelude::*;
use crate::error::ProtoError;
use crate::proto::s7::read_var::{
    addr_fits, address_items_bytes, address_items_decode_spec, address_roundtrips, data_entry_bytes,
    data_items_decode_spec, decode_address_items, decode_data_items, encode_address_item,
    lemma_address_items_len, lemma_address_items_roundtrip, lemma_data_entry_decode, AddressItem,
    DataItemModel,
};
use crate::wire::{be16_bytes, push_be16, push_slice};

verus! {

pub const FUNC_WRITE_VAR: u8 = 0x05;

/// One variable to write: where, and the bytes.
#[derive(Debug, Clone)]
pub struct WriteItem {
    pub address: AddressItem,
    pub data: Vec<u8>,
}

/// The mathematical value of a write item.
pub struct WriteItemModel {
    pub address: AddressItem,
    pub data: Seq<u8>,
}

impl View for WriteItem {
    type V = WriteItemModel;

    open spec fn view(&self) -> WriteItemModel {
        WriteItemModel { address: self.address, data: self.data@ }
    }
}

pub open spec fn write_items_view(v: Seq<WriteItem>) -> Seq<WriteItemModel> {
    v.map_values(|w: WriteItem| w@)
}

/// A WriteVar request.
#[derive(Debug, Clone)]
pub struct WriteVarRequest {
    pub items: Vec<WriteItem>,
}

/// The return codes of a WriteVar answer, one per item.
#[derive(Debug, Clone)]
pub struct WriteVarResponse {
    pub return_codes: Vec<u8>,
}

/// The wire bytes of the data part of one write item: reserved byte, transport
/// size, bit length (cut to 16 bits), the data and a pad byte after odd lengths.
pub open spec fn write_data_bytes(w: WriteItemModel) -> Seq<u8> {
    seq![0x00u8, w.address.transport.code()] + be16_bytes(((w.data.len() % 8192) * 8) as u16)
        + w.data + if w.data.len() % 2 == 1 {
        seq![0u8]
    } else {
        Seq::<u8>::empty()
    }
}

pub open spec fn write_datas_bytes(items: Seq<WriteItemModel>) -> Seq<u8>
    decreases items.len(),
{
    if items.len() == 0 {
        Seq::<u8>::empty()
    } else {
        write_datas_bytes(items.drop_last()) + write_data_bytes(items.last())
    }
}

/// The wire bytes of a WriteVar request.
pub open spec fn write_var_request_bytes(items: Seq<WriteItemModel>) -> Seq<u8> {
    seq![FUNC_WRITE_VAR, (items.len() % 256) as u8] + address_items_bytes(
        items.map_values(|w: WriteItemModel| w.address),
    ) + write_datas_bytes(items)
}

/// What decoding a WriteVar request gives: its items and the number of bytes consumed.
pub open spec fn write_var_request_decode_spec(s: Seq<u8>) -> Result<
    (Seq<WriteItemModel>, int),
    ProtoError,
> {
    if s.len() < 2 {
        Err(ProtoError::BufferTooShort { need: 2, have: s.len() as usize })
    } else if s[0] != FUNC_WRITE_VAR {
        Err(ProtoError::UnsupportedFunction(s[0]))
    } else {
        match address_items_decode_spec(s, 2, s[1] as nat) {
            Err(e) => Err(e),
            Ok(addrs) => match data_items_decode_spec(s, 2 + 12 * s[1] as int, s[1] as nat) {
                Err(e) => Err(e),
                Ok((ds, end)) => Ok(
                    (
                        Seq::new(
                            s[1] as nat,
                            |i: int| WriteItemModel { address: addrs[i], data: ds[i].data },
                        ),
                        end,
                    ),
                ),
            },
        }
    }
}

/// The data entries of write items, as a decoder of data items reads them:
/// first byte 0 and the data.
pub open spec fn write_entries(items: Seq<WriteItemModel>) -> Seq<DataItemModel> {
    items.map_values(|w: WriteItemModel| DataItemModel { return_code: 0, data: w.data })
}

/// Decoding the data part of write items whose data is shorter than 8192 bytes
/// gives their data back, and ends right after it.
pub proof fn lemma_write_datas_roundtrip(items: Seq<WriteItemModel>, s: Seq<u8>, p: int)
    requires
        0 <= p,
        forall|i: int| 0 <= i < items.len() ==> (#[trigger] items[i]).data.len() < 8192,
        p + write_datas_bytes(items).len() <= s.len(),
        s.subrange(p, p + write_datas_bytes(items).len()) == write_datas_bytes(items),
    ensures
        data_items_decode_spec(s, p, items.len()) == Ok::<(Seq<DataItemModel>, int), ProtoError>(
            (write_entries(items), p + write_datas_bytes(items).len()),
        ),
    decreases items.len(),
{
    if items.len() == 0 {
        assert(write_entries(items) =~= Seq::<DataItemModel>::empty());
    } else {
        let pre = items.drop_last();
        let w = items.last();
        let lp = write_datas_bytes(pre).len();
        let e = data_entry_bytes(0, w.address.transport.code(), w.data);
        assert(write_data_bytes(w) =~= e);
        let all = write_datas_bytes(items);
        assert(all =~= write_datas_bytes(pre) + e);
        assert(s.subrange(p, p + lp) =~= write_datas_bytes(pre)) by {
            assert forall|t: int| 0 <= t < lp implies #[trigger] s.subrange(p, p + lp)[t]
                == write_datas_bytes(pre)[t] by {
                assert(s.subrange(p, p + all.len())[t] == s[p + t]);
            }
        }
        lemma_write_datas_roundtrip(pre, s, p);
        let q = p + lp;
        assert(s.subrange(q, q + e.len()) =~= e) by {
            assert forall|t: int| 0 <= t < e.len() implies #[trigger] s.subrange(q, q + e.len())[t]
                == e[t] by {
                assert(s.subrange(p, p + all.len())[lp + t] == s[q + t]);
            }
        }
        lemma_data_entry_decode(s, q, 0, w.address.transport.code(), w.data);
        assert(((items.len() - 1) as nat) == pre.len());
        assert(write_entries(pre).push(DataItemModel { return_code: 0, data: w.data }) =~= write_entries(items));
    }
}

proof fn lemma_write_addresses_decode(items: Seq<WriteItemModel>, rest: Seq<u8>)
    requires
        items.len() <= 255,
        forall|i: int| 0 <= i < items.len() ==> address_roundtrips(#[trigger] items[i].address),
    ensures
        address_items_decode_spec(write_var_request_bytes(items) + rest, 2, items.len()) == Ok::<
            Seq<AddressItem>,
            ProtoError,
        >(items.map_values(|w: WriteItemModel| w.address)),
{
    let n = items.len();
    let addrs = items.map_values(|w: WriteItemModel| w.address);
    let s = write_var_request_bytes(items) + rest;
    lemma_address_items_len(addrs);
    assert(s.subrange(2, 2 + 12 * n as int) =~= address_items_bytes(addrs));
    assert forall|i: int| 0 <= i < addrs.len() implies address_roundtrips(#[trigger] addrs[i]) by {
        assert(addrs[i] == items[i].address);
    }
    lemma_address_items_roundtrip(addrs, s, 2, n);
    assert(addrs.subrange(0, n as int) =~= addrs);
}

proof fn lemma_write_datas_decode(items: Seq<WriteItemModel>, rest: Seq<u8>)
    requires
        forall|i: int| 0 <= i < items.len() ==> (#[trigger] items[i]).data.len() < 8192,
    ensures
        data_items_decode_spec(write_var_request_bytes(items) + rest, 2 + 12 * items.len() as int, items.len())
            == Ok::<(Seq<DataItemModel>, int), ProtoError>(
            (write_entries(items), write_var_request_bytes(items).len() as int),
        ),
{
    let addrs = items.map_values(|w: WriteItemModel| w.address);
    let db = write_datas_bytes(items);
    let s = write_var_request_bytes(items) + rest;
    let p = 2 + 12 * items.len() as int;
    lemma_address_items_len(addrs);
    assert(s.subrange(p, p + db.len()) =~= db);
    lemma_write_datas_roundtrip(items, s, p);
}

/// Decoding the bytes of a request gives its items back, whatever follows them,
/// for up to 255 items whose addresses fit their wire bits and whose data is
/// shorter than 8192 bytes.
pub proof fn lemma_write_var_request_roundtrip(items: Seq<WriteItemModel>, rest: Seq<u8>)
    requires
        items.len() <= 255,
        forall|i: int| 0 <= i < items.len() ==> address_roundtrips(#[trigger] items[i].address),
        forall|i: int| 0 <= i < items.len() ==> (#[trigger] items[i]).data.len() < 8192,
    ensures
        write_var_request_decode_spec(write_var_request_bytes(items) + rest) == Ok::<
            (Seq<WriteItemModel>, int),
            ProtoError,
        >((items, write_var_request_bytes(items).len() as int)),
{
    let n = items.len();
    let addrs = items.map_values(|w: WriteItemModel| w.address);
    let s = write_var_request_bytes(items) + rest;
    assert(s[0] == FUNC_WRITE_VAR && s[1] == n as u8);
    lemma_write_addresses_decode(items, rest);
    lemma_write_datas_decode(items, rest);
    let ds = write_entries(items);
    assert(Seq::new(n, |i: int| WriteItemModel { address: addrs[i], data: ds[i].data }) =~= items);
}

impl WriteVarRequest {
    /// Decodes a request from the front of `buf`; returns it with the number of bytes used.
    pub fn decode(buf: &[u8]) -> (r: Result<(WriteVarRequest, usize), ProtoError>)
        ensures
            match write_var_request_decode_spec(buf@) {
                Ok((items, n)) => (r matches Ok((req, k)) && write_items_view(req.items@) == items
                    && k == n),
                Err(e) => r == Err::<(WriteVarRequest, usize), ProtoError>(e),
            },
    {
        if buf.len() < 2 {
            return Err(ProtoError::BufferTooShort { need: 2, have: buf.len() });
        }
        if buf[0] != FUNC_WRITE_VAR {
            return Err(ProtoError::UnsupportedFunction(buf[0]));
        }
        let count = buf[1] as usize;
        let addrs = match decode_address_items(buf, 2, count) {
            Ok(a) => a,
            Err(e) => return Err(e),
        };
        proof {
            crate::proto::s7::read_var::lemma_address_items_decode_len(buf@, 2, count as nat);
        }
        let (datas, end) = match decode_data_items(buf, 2 + 12 * count, count) {
            Ok(d) => d,
            Err(e) => return Err(e),
        };
        proof {
            crate::proto::s7::read_var::lemma_data_items_decode_len(
                buf@,
                2 + 12 * count as int,
                count as nat,
            );
        }
        let mut items: Vec<WriteItem> = Vec::new();
        let mut i: usize = 0;
        while i < count
            invariant
                i <= count,
                addrs@.len() == count,
                datas@.len() == count,
                items@.len() == i,
                forall|j: int|
                    0 <= j < i ==> (#[trigger] items@[j]).address == addrs@[j] && items@[j].data@
                        == datas@[j].data@,
            decreases count - i,
        {
            items.push(WriteItem { address: addrs[i], data: datas[i].data.clone() });
            i = i + 1;
        }
        proof {
            let m = write_items_view(items@);
            let ghost ds = crate::proto::s7::read_var::data_items_view(datas@);
            assert(m =~= Seq::new(
                count as nat,
                |i: int| WriteItemModel { address: addrs@[i], data: ds[i].data },
            ));
        }
        Ok((WriteVarRequest { items }, end))
    }

    /// Appends the wire bytes of the request.
    pub fn encode(&self, buf: &mut Vec<u8>)
        requires
            forall|i: int| 0 <= i < self.items@.len() ==> addr_fits(#[trigger] self.items@[i].address),
        ensures
            final(buf)@ == old(buf)@ + write_var_request_bytes(write_items_view(self.items@)),
    {
        let ghost m = write_items_view(self.items@);
        let ghost addrs = m.map_values(|w: WriteItemModel| w.address);
        buf.push(FUNC_WRITE_VAR);
        buf.push((self.items.len() % 256) as u8);
        let ghost start = buf@;
        let mut i: usize = 0;
        while i < self.items.len()
            invariant
                i <= self.items@.len(),
                m == write_items_view(self.items@),
                addrs == m.map_values(|w: WriteItemModel| w.address),
                forall|j: int|
                    0 <= j < self.items@.len() ==> addr_fits(#[trigger] self.items@[j].address),
                buf@ == start + address_items_bytes(addrs.subrange(0, i as int)),
            decreases self.items@.len() - i,
        {
            encode_address_item(&self.items[i].address, buf);
            i = i + 1;
            assert(addrs.subrange(0, i as int).drop_last() =~= addrs.subrange(0, i - 1));
            assert(buf@ =~= start + address_items_bytes(addrs.subrange(0, i as int)));
        }
        assert(addrs.subrange(0, addrs.len() as int) =~= addrs);
        let ghost mid = buf@;
        let mut i: usize = 0;
        while i < self.items.len()
            invariant
                i <= self.items@.len(),
                m == write_items_view(self.items@),
                buf@ == mid + write_datas_bytes(m.subrange(0, i as int)),
            decreases self.items@.len() - i,
        {
            let item = &self.items[i];
            buf.push(0x00);
            buf.push(item.address.transport.as_u8());
            let n = item.data.len();
            push_be16(buf, ((n % 8192) * 8) as u16);
            push_slice(buf, item.data.as_slice());
            if n % 2 == 1 {
                buf.push(0x00);
            }
            i = i + 1;
            assert(m.subrange(0, i as int).drop_last() =~= m.subrange(0, i - 1));
            assert(buf@ =~= mid + write_datas_bytes(m.subrange(0, i as int)));
        }
        assert(m.subrange(0, m.len() as int) =~= m);
        assert(final(buf)@ =~= old(buf)@ + write_var_request_bytes(m));
    }
}

/// What decoding `item_count` return codes gives.
pub open spec fn write_var_response_decode_spec(s: Seq<u8>, n: nat) -> Result<Seq<u8>, ProtoError> {
    if s.len() < n {
        Err(ProtoError::BufferTooShort { need: 1, have: 0 })
    } else {
        Ok(s.subrange(0, n as int))
    }
}

impl WriteVarResponse {
    /// Reads `item_count` return codes from the front of `buf`.
    pub fn decode(buf: &[u8], item_count: usize) -> (r: Result<(WriteVarResponse, usize), ProtoError>)
        ensures
            match write_var_response_decode_spec(buf@, item_count as nat) {
                Ok(codes) => (r matches Ok((resp, k)) && resp.return_codes@ == codes && k
                    == item_count),
                Err(e) => r == Err::<(WriteVarResponse, usize), ProtoError>(e),
            },
    {
        if buf.len() < item_count {
            return Err(ProtoError::BufferTooShort { need: 1, have: 0 });
        }
        let return_codes = crate::wire::copy_range(buf, 0, item_count);
        Ok((WriteVarResponse { return_codes }, item_count))
    }
}

} // verus!
