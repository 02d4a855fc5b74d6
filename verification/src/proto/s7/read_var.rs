//! S7 ReadVar job: address items in the request, data items in the answer.
use vstd::prelude::*;
use crate::error::ProtoError;
use crate::proto::s7::header::{Area, TransportSize};
use crate::wire::{be16_at, be16_bytes, copy_range, lemma_be16_roundtrip, push_be16, push_slice, read_be16};

verus! {

pub const FUNC_READ_VAR: u8 = 0x04;
pub const ITEM_SPEC: u8 = 0x12;
pub const ITEM_LEN: u8 = 0x0A;
pub const ADDR_ANY: u8 = 0x10;

/// One variable address (S7ANY).
#[derive(Debug, Clone, Copy, PartialEq, Eq, Structural)]
pub struct AddressItem {
    pub area: Area,
    pub db_number: u16,
    /// Byte offset (element index for timers and counters).
    pub start: u32,
    pub bit_offset: u8,
    /// Element count.
    pub length: u16,
    pub transport: TransportSize,
}

/// Timers and counters are addressed by element index; every other transport
/// by bit address (byte offset times eight, or'ed with the bit offset).
pub open spec fn is_indexed(t: TransportSize) -> bool {
    t == TransportSize::Timer || t == TransportSize::Counter
}

/// The address field of an item, before it is cut to its 24 wire bits.
pub open spec fn addr_bits(a: AddressItem) -> u32 {
    if is_indexed(a.transport) {
        a.start
    } else {
        ((a.start * 8) as u32 | a.bit_offset as u32) as u32
    }
}

/// Items whose address field can be computed without overflow.
pub open spec fn addr_fits(a: AddressItem) -> bool {
    is_indexed(a.transport) || a.start * 8 <= u32::MAX
}

/// The 12 wire bytes of an address item.
pub open spec fn address_item_bytes(a: AddressItem) -> Seq<u8> {
    seq![
        ITEM_SPEC,
        ITEM_LEN,
        ADDR_ANY,
        a.transport.code(),
        (a.length / 256) as u8,
        (a.length % 256) as u8,
        (a.db_number / 256) as u8,
        (a.db_number % 256) as u8,
        a.area.code(),
        ((addr_bits(a) / 0x1_0000) % 256) as u8,
        ((addr_bits(a) / 256) % 256) as u8,
        (addr_bits(a) % 256) as u8,
    ]
}

/// The wire bytes of a list of address items, in order.
pub open spec fn address_items_bytes(items: Seq<AddressItem>) -> Seq<u8>
    decreases items.len(),
{
    if items.len() == 0 {
        Seq::<u8>::empty()
    } else {
        address_items_bytes(items.drop_last()) + address_item_bytes(items.last())
    }
}

/// Decodes the address item at `s[p..p + 12]`.
pub open spec fn address_item_decode_spec(s: Seq<u8>, p: int) -> Result<AddressItem, ProtoError> {
    if s[p] != ITEM_SPEC {
        Err(ProtoError::InvalidMagic { expected: ITEM_SPEC, got: s[p] })
    } else if s[p + 2] != ADDR_ANY {
        Err(ProtoError::InvalidMagic { expected: ADDR_ANY, got: s[p + 2] })
    } else {
        match TransportSize::from_code(s[p + 3]) {
            Err(e) => Err(e),
            Ok(t) => match Area::from_code(s[p + 8]) {
                Err(e) => Err(e),
                Ok(area) => {
                    let bits = s[p + 9] as int * 0x1_0000 + s[p + 10] as int * 256 + s[p + 11] as int;
                    Ok(
                        AddressItem {
                            area,
                            db_number: be16_at(s, p + 6),
                            start: (bits / 8) as u32,
                            bit_offset: (bits % 8) as u8,
                            length: be16_at(s, p + 4),
                            transport: t,
                        },
                    )
                },
            },
        }
    }
}

/// Decodes `k` consecutive address items starting at offset `p`.
pub open spec fn address_items_decode_spec(s: Seq<u8>, p: int, k: nat) -> Result<
    Seq<AddressItem>,
    ProtoError,
>
    decreases k,
{
    if k == 0 {
        Ok(Seq::<AddressItem>::empty())
    } else {
        match address_items_decode_spec(s, p, (k - 1) as nat) {
            Err(e) => Err(e),
            Ok(prev) => {
                let q = p + 12 * (k - 1);
                if s.len() - q < 12 {
                    Err(ProtoError::BufferTooShort { need: 12, have: (s.len() - q) as usize })
                } else {
                    match address_item_decode_spec(s, q) {
                        Err(e) => Err(e),
                        Ok(a) => Ok(prev.push(a)),
                    }
                }
            },
        }
    }
}

/// A ReadVar request.
#[derive(Debug, Clone)]
pub struct ReadVarRequest {
    pub items: Vec<AddressItem>,
}

/// The wire bytes of a ReadVar request (the item count is cut to one byte).
pub open spec fn read_var_request_bytes(items: Seq<AddressItem>) -> Seq<u8> {
    seq![FUNC_READ_VAR, (items.len() % 256) as u8] + address_items_bytes(items)
}

/// What decoding a ReadVar request gives: its items and the number of bytes consumed.
pub open spec fn read_var_request_decode_spec(s: Seq<u8>) -> Result<
    (Seq<AddressItem>, int),
    ProtoError,
> {
    if s.len() < 2 {
        Err(ProtoError::BufferTooShort { need: 2, have: s.len() as usize })
    } else if s[0] != FUNC_READ_VAR {
        Err(ProtoError::UnsupportedFunction(s[0]))
    } else {
        match address_items_decode_spec(s, 2, s[1] as nat) {
            Err(e) => Err(e),
            Ok(items) => Ok((items, 2 + 12 * s[1] as int)),
        }
    }
}

/// Appends the 12 wire bytes of `a`.
pub fn encode_address_item(a: &AddressItem, buf: &mut Vec<u8>)
    requires
        addr_fits(*a),
    ensures
        final(buf)@ == old(buf)@ + address_item_bytes(*a),
{
    buf.push(ITEM_SPEC);
    buf.push(ITEM_LEN);
    buf.push(ADDR_ANY);
    buf.push(a.transport.as_u8());
    push_be16(buf, a.length);
    push_be16(buf, a.db_number);
    buf.push(a.area.as_u8());
    let bits: u32 = if a.transport == TransportSize::Timer || a.transport == TransportSize::Counter {
        a.start
    } else {
        (a.start * 8) | (a.bit_offset as u32)
    };
    buf.push(((bits / 0x1_0000) % 256) as u8);
    buf.push(((bits / 256) % 256) as u8);
    buf.push((bits % 256) as u8);
    assert(final(buf)@ =~= old(buf)@ + address_item_bytes(*a));
}

/// Decodes the address item at `buf[p..p + 12]`.
pub fn decode_address_item(buf: &[u8], p: usize) -> (r: Result<AddressItem, ProtoError>)
    requires
        p + 12 <= buf@.len(),
    ensures
        r == address_item_decode_spec(buf@, p as int),
{
    if buf[p] != ITEM_SPEC {
        return Err(ProtoError::InvalidMagic { expected: ITEM_SPEC, got: buf[p] });
    }
    if buf[p + 2] != ADDR_ANY {
        return Err(ProtoError::InvalidMagic { expected: ADDR_ANY, got: buf[p + 2] });
    }
    let transport = match TransportSize::try_from(buf[p + 3]) {
        Ok(t) => t,
        Err(e) => return Err(e),
    };
    let length = read_be16(buf, p + 4);
    let db_number = read_be16(buf, p + 6);
    let area = match Area::try_from(buf[p + 8]) {
        Ok(a) => a,
        Err(e) => return Err(e),
    };
    let bits: u32 = (buf[p + 9] as u32) * 0x1_0000 + (buf[p + 10] as u32) * 256 + (buf[p + 11] as u32);
    Ok(
        AddressItem {
            area,
            db_number,
            start: bits / 8,
            bit_offset: (bits % 8) as u8,
            length,
            transport,
        },
    )
}

/// Decodes `count` address items starting at `buf[p..]`.
pub fn decode_address_items(buf: &[u8], p: usize, count: usize) -> (r: Result<
    Vec<AddressItem>,
    ProtoError,
>)
    requires
        count <= 255,
        p <= buf@.len(),
    ensures
        match address_items_decode_spec(buf@, p as int, count as nat) {
            Ok(items) => (r matches Ok(v) && v@ == items),
            Err(e) => r == Err::<Vec<AddressItem>, ProtoError>(e),
        },
{
    let mut items: Vec<AddressItem> = Vec::new();
    let rem = buf.len() - p;
    let mut i: usize = 0;
    while i < count
        invariant
            i <= count <= 255,
            p <= buf@.len(),
            rem == buf@.len() - p,
            p + rem <= usize::MAX,
            12 * i <= rem,
            address_items_decode_spec(buf@, p as int, i as nat) == Ok::<
                Seq<AddressItem>,
                ProtoError,
            >(items@),
        decreases count - i,
    {
        let off: usize = 12 * i;
        assert(p + off <= buf@.len());
        let q: usize = p + off;
        if rem - 12 * i < 12 {
            let e = ProtoError::BufferTooShort { need: 12, have: rem - 12 * i };
            proof {
                lemma_address_items_err_propagates(buf@, p as int, (i + 1) as nat, count as nat, e);
            }
            return Err(e);
        }
        match decode_address_item(buf, q) {
            Ok(a) => {
                items.push(a);
            },
            Err(e) => {
                proof {
                    lemma_address_items_err_propagates(buf@, p as int, (i + 1) as nat, count as nat, e);
                }
                return Err(e);
            },
        }
        i = i + 1;
    }
    Ok(items)
}

/// A successful decoding of `k` items yields `k` items.
pub proof fn lemma_address_items_decode_len(s: Seq<u8>, p: int, k: nat)
    ensures
        address_items_decode_spec(s, p, k) matches Ok(items) ==> items.len() == k,
    decreases k,
{
    if k > 0 {
        lemma_address_items_decode_len(s, p, (k - 1) as nat);
    }
}

/// Once decoding fails on an item, decoding more items fails the same way.
pub proof fn lemma_address_items_err_propagates(s: Seq<u8>, p: int, k: nat, k2: nat, e: ProtoError)
    requires
        k <= k2,
        address_items_decode_spec(s, p, k) == Err::<Seq<AddressItem>, ProtoError>(e),
    ensures
        address_items_decode_spec(s, p, k2) == Err::<Seq<AddressItem>, ProtoError>(e),
    decreases k2 - k,
{
    if k < k2 {
        lemma_address_items_err_propagates(s, p, k, (k2 - 1) as nat, e);
    }
}

impl ReadVarRequest {
    /// Appends the wire bytes of the request.
    pub fn encode(&self, buf: &mut Vec<u8>)
        requires
            forall|i: int| 0 <= i < self.items@.len() ==> addr_fits(#[trigger] self.items@[i]),
        ensures
            final(buf)@ == old(buf)@ + read_var_request_bytes(self.items@),
    {
        buf.push(FUNC_READ_VAR);
        buf.push((self.items.len() % 256) as u8);
        let ghost start = buf@;
        let mut i: usize = 0;
        while i < self.items.len()
            invariant
                i <= self.items@.len(),
                forall|j: int| 0 <= j < self.items@.len() ==> addr_fits(#[trigger] self.items@[j]),
                buf@ == start + address_items_bytes(self.items@.subrange(0, i as int)),
            decreases self.items@.len() - i,
        {
            encode_address_item(&self.items[i], buf);
            i = i + 1;
            assert(self.items@.subrange(0, i as int).drop_last() =~= self.items@.subrange(
                0,
                i - 1,
            ));
            assert(buf@ =~= start + address_items_bytes(self.items@.subrange(0, i as int)));
        }
        assert(self.items@.subrange(0, self.items@.len() as int) =~= self.items@);
        assert(final(buf)@ =~= old(buf)@ + read_var_request_bytes(self.items@));
    }

    /// Decodes a request from the front of `buf`; returns it with the number of bytes used.
    pub fn decode(buf: &[u8]) -> (r: Result<(ReadVarRequest, usize), ProtoError>)
        ensures
            match read_var_request_decode_spec(buf@) {
                Ok((items, n)) => (r matches Ok((req, k)) && req.items@ == items && k == n),
                Err(e) => r == Err::<(ReadVarRequest, usize), ProtoError>(e),
            },
    {
        if buf.len() < 2 {
            return Err(ProtoError::BufferTooShort { need: 2, have: buf.len() });
        }
        if buf[0] != FUNC_READ_VAR {
            return Err(ProtoError::UnsupportedFunction(buf[0]));
        }
        let count = buf[1] as usize;
        match decode_address_items(buf, 2, count) {
            Ok(items) => Ok((ReadVarRequest { items }, 2 + 12 * count)),
            Err(e) => Err(e),
        }
    }
}

/// Items whose address survives the trip over the wire: bit-addressed, with the
/// bit address inside its 24 wire bits and a bit offset below 8.
pub open spec fn address_roundtrips(a: AddressItem) -> bool {
    !is_indexed(a.transport) && a.bit_offset < 8 && a.start < 0x20_0000
}

proof fn lemma_addr_bits_value(start: u32, bit: u32)
    requires
        start < 0x20_0000,
        bit < 8,
    ensures
        ((start * 8) as u32 | bit) == start * 8 + bit,
{
    assert(start < 0x20_0000 && bit < 8 ==> ((start * 8) as u32 | bit) == start * 8 + bit)
        by (bit_vector);
}

/// The wire bytes of an item decode back to it.
pub proof fn lemma_address_item_roundtrip(a: AddressItem, s: Seq<u8>, p: int)
    requires
        address_roundtrips(a),
        0 <= p,
        p + 12 <= s.len(),
        s.subrange(p, p + 12) == address_item_bytes(a),
    ensures
        address_item_decode_spec(s, p) == Ok::<AddressItem, ProtoError>(a),
{
    let b = address_item_bytes(a);
    assert forall|t: int| 0 <= t < 12 implies s[p + t] == b[t] by {
        assert(s.subrange(p, p + 12)[t] == s[p + t]);
    }
    assert(s[p + 4] == b[4] && s[p + 5] == b[5] && s[p + 6] == b[6] && s[p + 7] == b[7]);
    assert(s[p + 9] == b[9] && s[p + 10] == b[10] && s[p + 11] == b[11]);
    assert(s[p] == b[0] && s[p + 2] == b[2] && s[p + 3] == b[3] && s[p + 8] == b[8]);
    lemma_addr_bits_value(a.start, a.bit_offset as u32);
    let x = addr_bits(a);
    assert(x == a.start * 8 + a.bit_offset);
    assert(x < 0x100_0000);
    let bits = s[p + 9] as int * 0x1_0000 + s[p + 10] as int * 256 + s[p + 11] as int;
    assert(bits == x) by (nonlinear_arith)
        requires
            bits == ((x / 0x1_0000) % 256) as u8 as int * 0x1_0000 + ((x / 256) % 256) as u8 as int
                * 256 + (x % 256) as u8 as int,
            x < 0x100_0000,
    ;
    crate::proto::s7::header::lemma_codes_roundtrip(a.area, a.transport, crate::proto::s7::header::PduType::Job);
}

/// Length and layout of the bytes of an item list.
pub proof fn lemma_address_items_bytes(items: Seq<AddressItem>, j: int)
    requires
        0 <= j < items.len(),
    ensures
        address_items_bytes(items).len() == 12 * items.len(),
        address_items_bytes(items).subrange(12 * j, 12 * j + 12) == address_item_bytes(items[j]),
    decreases items.len(),
{
    lemma_address_items_len(items);
    let pre = items.drop_last();
    if j < items.len() - 1 {
        lemma_address_items_bytes(pre, j);
        assert(address_items_bytes(items).subrange(12 * j, 12 * j + 12) =~= address_items_bytes(
            pre,
        ).subrange(12 * j, 12 * j + 12));
    } else {
        lemma_address_items_len(pre);
        assert(address_items_bytes(items).subrange(12 * j, 12 * j + 12) =~= address_item_bytes(
            items.last(),
        ));
    }
}

pub proof fn lemma_address_items_len(items: Seq<AddressItem>)
    ensures
        address_items_bytes(items).len() == 12 * items.len(),
    decreases items.len(),
{
    if items.len() > 0 {
        lemma_address_items_len(items.drop_last());
    }
}

/// Decoding `k` items from the bytes of a list gives the first `k` items back.
pub proof fn lemma_address_items_roundtrip(items: Seq<AddressItem>, s: Seq<u8>, p: int, k: nat)
    requires
        forall|i: int| 0 <= i < items.len() ==> address_roundtrips(#[trigger] items[i]),
        0 <= p,
        k <= items.len(),
        p + 12 * items.len() <= s.len(),
        s.subrange(p, p + 12 * items.len()) == address_items_bytes(items),
    ensures
        address_items_decode_spec(s, p, k) == Ok::<Seq<AddressItem>, ProtoError>(
            items.subrange(0, k as int),
        ),
    decreases k,
{
    if k > 0 {
        lemma_address_items_roundtrip(items, s, p, (k - 1) as nat);
        let j = k - 1;
        lemma_address_items_bytes(items, j);
        let q = p + 12 * j;
        assert(s.subrange(q, q + 12) =~= address_items_bytes(items).subrange(12 * j, 12 * j + 12))
            by {
            assert forall|t: int| 0 <= t < 12 implies #[trigger] s.subrange(q, q + 12)[t]
                == address_items_bytes(items).subrange(12 * j, 12 * j + 12)[t] by {
                assert(s.subrange(p, p + 12 * items.len())[12 * j + t] == s[q + t]);
            }
        }
        lemma_address_item_roundtrip(items[j], s, q);
        assert(q + 12 <= s.len());
        assert(((k - 1) as nat) as int == j);
        assert(address_items_decode_spec(s, p, (k - 1) as nat) == Ok::<Seq<AddressItem>, ProtoError>(
            items.subrange(0, j),
        ));
        assert(address_item_decode_spec(s, p + 12 * (k - 1)) == Ok::<AddressItem, ProtoError>(
            items[j],
        ));
        assert(items.subrange(0, j).push(items[j]) =~= items.subrange(0, k as int));
        assert(!(s.len() - (p + 12 * (k - 1)) < 12));
        assert(address_items_decode_spec(s, p, k) == Ok::<Seq<AddressItem>, ProtoError>(
            items.subrange(0, j).push(items[j]),
        ));
    } else {
        assert(items.subrange(0, 0) =~= Seq::<AddressItem>::empty());
    }
}

/// Decoding the bytes of a request gives its items back, whatever follows them,
/// for up to 255 bit-addressed items whose addresses fit their wire bits.
pub proof fn lemma_read_var_request_roundtrip(items: Seq<AddressItem>, rest: Seq<u8>)
    requires
        items.len() <= 255,
        forall|i: int| 0 <= i < items.len() ==> address_roundtrips(#[trigger] items[i]),
    ensures
        read_var_request_decode_spec(read_var_request_bytes(items) + rest) == Ok::<
            (Seq<AddressItem>, int),
            ProtoError,
        >((items, 2 + 12 * items.len() as int)),
{
    let s = read_var_request_bytes(items) + rest;
    let body = address_items_bytes(items);
    lemma_address_items_len(items);
    assert(s[0] == FUNC_READ_VAR);
    assert(s[1] == items.len() as u8);
    assert(s.subrange(2, 2 + 12 * items.len() as int) =~= body);
    lemma_address_items_roundtrip(items, s, 2, items.len());
    assert(items.subrange(0, items.len() as int) =~= items);
}

/// One data item of a ReadVar answer.
#[derive(Debug, Clone)]
pub struct DataItem {
    pub return_code: u8,
    pub data: Vec<u8>,
}

/// The mathematical value of a data item.
pub struct DataItemModel {
    pub return_code: u8,
    pub data: Seq<u8>,
}

impl View for DataItem {
    type V = DataItemModel;

    open spec fn view(&self) -> DataItemModel {
        DataItemModel { return_code: self.return_code, data: self.data@ }
    }
}

/// A ReadVar answer's data items.
#[derive(Debug, Clone)]
pub struct ReadVarResponse {
    pub items: Vec<DataItem>,
}

/// The data-item models of a vector of data items.
pub open spec fn data_items_view(v: Seq<DataItem>) -> Seq<DataItemModel> {
    v.map_values(|d: DataItem| d@)
}

/// The wire bytes of one data item: return code, byte transport, bit length
/// (cut to 16 bits), the data and a pad byte after odd lengths.
pub open spec fn data_item_bytes(d: DataItemModel) -> Seq<u8> {
    seq![d.return_code, 0x04u8] + be16_bytes(((d.data.len() % 8192) * 8) as u16) + d.data
        + if d.data.len() % 2 == 1 {
        seq![0u8]
    } else {
        Seq::<u8>::empty()
    }
}

pub open spec fn data_items_bytes(items: Seq<DataItemModel>) -> Seq<u8>
    decreases items.len(),
{
    if items.len() == 0 {
        Seq::<u8>::empty()
    } else {
        data_items_bytes(items.drop_last()) + data_item_bytes(items.last())
    }
}

/// Decodes one data item at offset `p`: the item and the offset after it.
pub open spec fn data_item_decode_spec(s: Seq<u8>, p: int) -> Result<(DataItemModel, int), ProtoError> {
    if s.len() - p < 4 {
        Err(ProtoError::BufferTooShort { need: 4, have: (s.len() - p) as usize })
    } else {
        let byte_len = (be16_at(s, p + 2) as int + 7) / 8;
        if s.len() - (p + 4) < byte_len {
            Err(ProtoError::BufferTooShort { need: byte_len as usize, have: (s.len() - (p + 4)) as usize })
        } else {
            let after = p + 4 + byte_len;
            Ok(
                (
                    DataItemModel { return_code: s[p], data: s.subrange(p + 4, after) },
                    if byte_len % 2 == 1 && after < s.len() {
                        after + 1
                    } else {
                        after
                    },
                ),
            )
        }
    }
}

/// Decodes `k` data items from offset `p`: the items and the offset after them.
pub open spec fn data_items_decode_spec(s: Seq<u8>, p: int, k: nat) -> Result<
    (Seq<DataItemModel>, int),
    ProtoError,
>
    decreases k,
{
    if k == 0 {
        Ok((Seq::<DataItemModel>::empty(), p))
    } else {
        match data_items_decode_spec(s, p, (k - 1) as nat) {
            Err(e) => Err(e),
            Ok((prev, q)) => match data_item_decode_spec(s, q) {
                Err(e) => Err(e),
                Ok((d, q2)) => Ok((prev.push(d), q2)),
            },
        }
    }
}

/// A successful decoding of `k` data items yields `k` items.
pub proof fn lemma_data_items_decode_len(s: Seq<u8>, p: int, k: nat)
    ensures
        data_items_decode_spec(s, p, k) matches Ok((items, _)) ==> items.len() == k,
    decreases k,
{
    if k > 0 {
        lemma_data_items_decode_len(s, p, (k - 1) as nat);
    }
}

/// Once decoding fails on a data item, decoding more items fails the same way.
pub proof fn lemma_data_items_err_propagates(s: Seq<u8>, p: int, k: nat, k2: nat, e: ProtoError)
    requires
        k <= k2,
        data_items_decode_spec(s, p, k) == Err::<(Seq<DataItemModel>, int), ProtoError>(e),
    ensures
        data_items_decode_spec(s, p, k2) == Err::<(Seq<DataItemModel>, int), ProtoError>(e),
    decreases k2 - k,
{
    if k < k2 {
        lemma_data_items_err_propagates(s, p, k, (k2 - 1) as nat, e);
    }
}

/// A data item read at `p` holds the return code at `p` and, right after the
/// 4-byte item header, as many bytes as its bit length needs: the fewest whole
/// bytes that hold that many bits (a BOOL of 1 bit takes one byte).
pub proof fn lemma_data_item_byte_count(s: Seq<u8>, p: int)
    requires
        0 <= p,
    ensures
        data_item_decode_spec(s, p) matches Ok((d, q)) ==> {
            let bits = be16_at(s, p + 2) as int;
            &&& 8 * d.data.len() >= bits
            &&& 8 * d.data.len() < bits + 8
            &&& d.return_code == s[p]
            &&& p + 4 + d.data.len() <= s.len()
            &&& d.data == s.subrange(p + 4, p + 4 + d.data.len())
            &&& p + 4 + d.data.len() <= q <= p + 5 + d.data.len()
        },
        s.len() - p >= 4 && s.len() - (p + 4) >= (be16_at(s, p + 2) as int + 7) / 8 ==> data_item_decode_spec(
            s,
            p,
        ) is Ok,
{
}

/// The wire bytes of an entry of a data section: two leading bytes, the bit
/// length (cut to 16 bits), the data and a pad byte after odd lengths.
pub open spec fn data_entry_bytes(b0: u8, b1: u8, data: Seq<u8>) -> Seq<u8> {
    seq![b0, b1] + be16_bytes(((data.len() % 8192) * 8) as u16) + data + if data.len() % 2 == 1 {
        seq![0u8]
    } else {
        Seq::<u8>::empty()
    }
}

/// An entry with less than 8192 data bytes decodes back to its first byte and
/// its data, and decoding goes on right after it.
pub proof fn lemma_data_entry_decode(s: Seq<u8>, q: int, b0: u8, b1: u8, data: Seq<u8>)
    requires
        0 <= q,
        data.len() < 8192,
        q + data_entry_bytes(b0, b1, data).len() <= s.len(),
        s.subrange(q, q + data_entry_bytes(b0, b1, data).len()) == data_entry_bytes(b0, b1, data),
    ensures
        data_item_decode_spec(s, q) == Ok::<(DataItemModel, int), ProtoError>(
            (DataItemModel { return_code: b0, data }, q + data_entry_bytes(b0, b1, data).len()),
        ),
{
    let e = data_entry_bytes(b0, b1, data);
    let n = data.len();
    let bits = ((n % 8192) * 8) as u16;
    lemma_be16_roundtrip(bits);
    assert forall|t: int| 0 <= t < e.len() implies s[q + t] == e[t] by {
        assert(s.subrange(q, q + e.len())[t] == s[q + t]);
    }
    assert(s[q] == e[0] && s[q + 2] == e[2] && s[q + 3] == e[3]);
    assert(be16_at(s, q + 2) == be16_at(be16_bytes(bits), 0));
    assert(bits == n * 8);
    assert((be16_at(s, q + 2) as int + 7) / 8 == n);
    assert forall|t: int| 0 <= t < n implies #[trigger] s.subrange(q + 4, q + 4 + n)[t] == data[t] by {
        assert(s[q + 4 + t] == e[4 + t]);
    }
    assert(s.subrange(q + 4, q + 4 + n) =~= data);
}

/// Decoding the bytes of data items whose data is shorter than 8192 bytes
/// gives them back, and ends right after them.
pub proof fn lemma_data_items_roundtrip(items: Seq<DataItemModel>, s: Seq<u8>, p: int)
    requires
        0 <= p,
        forall|i: int| 0 <= i < items.len() ==> (#[trigger] items[i]).data.len() < 8192,
        p + data_items_bytes(items).len() <= s.len(),
        s.subrange(p, p + data_items_bytes(items).len()) == data_items_bytes(items),
    ensures
        data_items_decode_spec(s, p, items.len()) == Ok::<(Seq<DataItemModel>, int), ProtoError>(
            (items, p + data_items_bytes(items).len()),
        ),
    decreases items.len(),
{
    if items.len() == 0 {
        assert(items =~= Seq::<DataItemModel>::empty());
    } else {
        let pre = items.drop_last();
        let d = items.last();
        let lp = data_items_bytes(pre).len();
        let e = data_entry_bytes(d.return_code, 4, d.data);
        assert(data_item_bytes(d) =~= e);
        let all = data_items_bytes(items);
        assert(all =~= data_items_bytes(pre) + e);
        assert(s.subrange(p, p + lp) =~= data_items_bytes(pre)) by {
            assert forall|t: int| 0 <= t < lp implies #[trigger] s.subrange(p, p + lp)[t]
                == data_items_bytes(pre)[t] by {
                assert(s.subrange(p, p + all.len())[t] == s[p + t]);
            }
        }
        lemma_data_items_roundtrip(pre, s, p);
        let q = p + lp;
        assert(s.subrange(q, q + e.len()) =~= e) by {
            assert forall|t: int| 0 <= t < e.len() implies #[trigger] s.subrange(q, q + e.len())[t]
                == e[t] by {
                assert(s.subrange(p, p + all.len())[lp + t] == s[q + t]);
            }
        }
        lemma_data_entry_decode(s, q, d.return_code, 4, d.data);
        assert(((items.len() - 1) as nat) == pre.len());
        assert(pre.push(d) =~= items);
    }
}

impl ReadVarResponse {
    /// Appends the wire bytes of the data items.
    pub fn encode(&self, buf: &mut Vec<u8>)
        ensures
            final(buf)@ == old(buf)@ + data_items_bytes(data_items_view(self.items@)),
    {
        let ghost start = buf@;
        let mut i: usize = 0;
        while i < self.items.len()
            invariant
                i <= self.items@.len(),
                buf@ == start + data_items_bytes(data_items_view(self.items@.subrange(0, i as int))),
            decreases self.items@.len() - i,
        {
            let item = &self.items[i];
            buf.push(item.return_code);
            buf.push(0x04);
            let n = item.data.len();
            let bit_len: u16 = ((n % 8192) * 8) as u16;
            push_be16(buf, bit_len);
            push_slice(buf, item.data.as_slice());
            if n % 2 == 1 {
                buf.push(0x00);
            }
            i = i + 1;
            proof {
                let v = data_items_view(self.items@.subrange(0, i as int));
                assert(v.drop_last() =~= data_items_view(self.items@.subrange(0, i - 1)));
                assert(v.last() == self.items@[i - 1]@);
            }
            assert(buf@ =~= start + data_items_bytes(data_items_view(self.items@.subrange(0, i as int))));
        }
        assert(self.items@.subrange(0, self.items@.len() as int) =~= self.items@);
    }

    /// Decodes `item_count` data items from the front of `buf`; returns them with
    /// the number of bytes used.
    pub fn decode(buf: &[u8], item_count: usize) -> (r: Result<(ReadVarResponse, usize), ProtoError>)
        ensures
            match data_items_decode_spec(buf@, 0, item_count as nat) {
                Ok((items, n)) => (r matches Ok((resp, k)) && data_items_view(resp.items@) == items
                    && k == n),
                Err(e) => r == Err::<(ReadVarResponse, usize), ProtoError>(e),
            },
    {
        match decode_data_items(buf, 0, item_count) {
            Ok((items, p)) => Ok((ReadVarResponse { items }, p)),
            Err(e) => Err(e),
        }
    }
}

/// Decodes `item_count` data items starting at `buf[start..]`; returns them with
/// the offset after the last one.
pub fn decode_data_items(buf: &[u8], start: usize, item_count: usize) -> (r: Result<
    (Vec<DataItem>, usize),
    ProtoError,
>)
    requires
        start <= buf@.len(),
    ensures
        match data_items_decode_spec(buf@, start as int, item_count as nat) {
            Ok((items, n)) => (r matches Ok((v, k)) && data_items_view(v@) == items && k == n),
            Err(e) => r == Err::<(Vec<DataItem>, usize), ProtoError>(e),
        },
{
    let len = buf.len();
    let mut items: Vec<DataItem> = Vec::new();
    let mut p: usize = start;
    let mut i: usize = 0;
    while i < item_count
        invariant
            i <= item_count,
            len == buf@.len(),
            start <= p <= len,
            data_items_decode_spec(buf@, start as int, i as nat) matches Ok((m, q)) && m
                == data_items_view(items@) && q == p,
        decreases item_count - i,
    {
        if len - p < 4 {
            let e = ProtoError::BufferTooShort { need: 4, have: len - p };
            proof {
                lemma_data_items_err_propagates(buf@, start as int, (i + 1) as nat, item_count as nat, e);
            }
            return Err(e);
        }
        let return_code = buf[p];
        let bit_len = read_be16(buf, p + 2) as usize;
        let byte_len = (bit_len + 7) / 8;
        if len - (p + 4) < byte_len {
            let e = ProtoError::BufferTooShort { need: byte_len, have: len - (p + 4) };
            proof {
                lemma_data_items_err_propagates(buf@, start as int, (i + 1) as nat, item_count as nat, e);
            }
            return Err(e);
        }
        let data = copy_range(buf, p + 4, p + 4 + byte_len);
        let after = p + 4 + byte_len;
        let ghost old_items = items@;
        items.push(DataItem { return_code, data });
        p = if byte_len % 2 == 1 && after < len {
            after + 1
        } else {
            after
        };
        i = i + 1;
        proof {
            assert(data_items_view(items@) =~= data_items_view(old_items).push(
                items@[items@.len() - 1]@,
            ));
        }
    }
    Ok((items, p))
}

} // verus!
