//! Blocks on the PLC: listing them, reading their information, and the
//! request and answer steps of upload and download.
use vstd::prelude::*;
use crate::error::{text, Error};
use crate::text::{hex2, hex4, lossy_string, push_hex2, push_hex4, text_trim, lossy_text};
use crate::types::{BlockInfo, BlockList, BlockListEntry};
use crate::ascii::find_from;
use crate::wire::{be16_at, be16_bytes, be32_at, be32_bytes, copy_range, push_be16, push_be32, read_be16, read_be32};

verus! {

/// The block counts an answer to "list all blocks" gives: seven entries
/// `[0][type][count:2]` after the 4-byte data envelope, or none when the answer
/// is short; an answer shorter than its echoed parameters is refused.
pub open spec fn block_list_spec(param_len: u16, body: Seq<u8>) -> Result<Seq<(u16, u16)>, Error> {
    if body.len() < param_len {
        Err(Error::UnexpectedResponse)
    } else {
        let rest = body.subrange(param_len as int, body.len() as int);
        if rest.len() < 4 || be16_at(rest, 2) < 28 || rest.len() - 4 < 28 {
            Ok(Seq::empty())
        } else {
            Ok(Seq::new(7, |k: int| (rest[5 + 4 * k] as u16, be16_at(rest, 6 + 4 * k))))
        }
    }
}

/// The sum of the counts of `e`.
pub open spec fn count_sum(e: Seq<(u16, u16)>) -> int
    decreases e.len(),
{
    if e.len() == 0 {
        0
    } else {
        count_sum(e.drop_last()) + e.last().1
    }
}

/// Reads the block counts of an answer to "list all blocks".
pub fn block_list_from_reply(param_len: u16, body: &[u8]) -> (r: Result<BlockList, Error>)
    ensures
        match block_list_spec(param_len, body@) {
            Ok(e) => (r matches Ok(l) && l.entries@.len() == e.len() && (forall|k: int|
                0 <= k < e.len() ==> (#[trigger] l.entries@[k]).block_type == e[k].0 && l.entries@[k].count
                    == e[k].1) && l.total_count == count_sum(e)),
            Err(err) => r == Err::<BlockList, Error>(err),
        },
{
    let pl = param_len as usize;
    if body.len() < pl {
        return Err(Error::UnexpectedResponse);
    }
    let rest = &body[pl..body.len()];
    if rest.len() < 4 || read_be16(rest, 2) < 28 || rest.len() - 4 < 28 {
        return Ok(BlockList { total_count: 0, entries: Vec::new() });
    }
    let ghost e = Seq::new(7, |k: int| (rest@[5 + 4 * k] as u16, be16_at(rest@, 6 + 4 * k)));
    let mut entries: Vec<BlockListEntry> = Vec::new();
    let mut total: u32 = 0;
    let mut k: usize = 0;
    while k < 7
        invariant
            k <= 7,
            rest@.len() >= 32,
            e == Seq::new(7, |k: int| (rest@[5 + 4 * k] as u16, be16_at(rest@, 6 + 4 * k))),
            entries@.len() == k,
            forall|j: int| 0 <= j < k ==> (#[trigger] entries@[j]).block_type == e[j].0 && entries@[j].count
                == e[j].1,
            total == count_sum(e.subrange(0, k as int)),
            total <= k * 65535,
        decreases 7 - k,
    {
        let block_type = rest[5 + 4 * k] as u16;
        let count = read_be16(rest, 6 + 4 * k);
        assert(e.subrange(0, k + 1).drop_last() =~= e.subrange(0, k as int));
        total = total + count as u32;
        entries.push(BlockListEntry { block_type, count });
        k = k + 1;
    }
    assert(e.subrange(0, 7) =~= e);
    Ok(BlockList { total_count: total, entries })
}

/// One page of the answer to "list blocks of a type".
#[derive(Debug, Clone)]
pub struct BlockPage {
    /// The block numbers on this page.
    pub numbers: Vec<u16>,
    /// Whether the PLC has more pages.
    pub more: bool,
    /// The sequence number to ask for the next page with.
    pub seq: u8,
}

/// The block numbers of a page: the first word of each 4-byte item from `pos`
/// on, at most `left` of them, while four bytes remain.
pub open spec fn page_numbers(rest: Seq<u8>, left: int, pos: int) -> Seq<u16>
    decreases left,
{
    if left <= 0 || pos < 0 || rest.len() - pos < 4 {
        Seq::empty()
    } else {
        seq![be16_at(rest, pos)] + page_numbers(rest, left - 1, pos + 4)
    }
}

/// What one page gives: its numbers, whether another page follows (the
/// parameters' byte 8 is non-zero, or they are shorter than 10 bytes), and the
/// sequence number (parameter byte 7). A page whose data is short or not
/// successful ends the listing with no numbers.
pub open spec fn block_page_spec(param_len: u16, body: Seq<u8>) -> Result<(Seq<u16>, bool, u8), Error> {
    if body.len() < param_len {
        Err(Error::UnexpectedResponse)
    } else {
        let params = body.subrange(0, param_len as int);
        let done = params.len() >= 10 && params[8] == 0;
        let seq = if params.len() >= 8 {
            params[7]
        } else {
            0
        };
        let rest = body.subrange(param_len as int, body.len() as int);
        if rest.len() < 4 || rest[0] != 0xFF || be16_at(rest, 2) < 4 || rest.len() - 4 < be16_at(rest, 2) {
            Ok((Seq::empty(), false, seq))
        } else {
            Ok((page_numbers(rest, (be16_at(rest, 2) - 4) / 4 + 1, 4), !done, seq))
        }
    }
}

/// Reads one page of the answer to "list blocks of a type".
pub fn block_page_from_reply(param_len: u16, body: &[u8]) -> (r: Result<BlockPage, Error>)
    ensures
        match block_page_spec(param_len, body@) {
            Ok((n, more, seq)) => (r matches Ok(p) && p.numbers@ == n && p.more == more && p.seq == seq),
            Err(e) => r matches Err(e2) && e2 == e,
        },
{
    let pl = param_len as usize;
    if body.len() < pl {
        return Err(Error::UnexpectedResponse);
    }
    let done = pl >= 10 && body[8] == 0;
    let seq: u8 = if pl >= 8 {
        body[7]
    } else {
        0
    };
    let rest = &body[pl..body.len()];
    if rest.len() < 4 || rest[0] != 0xFF || read_be16(rest, 2) < 4 || rest.len() - 4 < read_be16(rest, 2) as usize {
        return Ok(BlockPage { numbers: Vec::new(), more: false, seq });
    }
    let mut left = ((read_be16(rest, 2) - 4) / 4 + 1) as usize;
    let ghost total = left;
    let mut pos: usize = 4;
    let mut numbers: Vec<u16> = Vec::new();
    while left > 0 && rest.len() - pos >= 4
        invariant
            4 <= pos <= rest@.len(),
            numbers@ + page_numbers(rest@, left as int, pos as int) == page_numbers(rest@, total as int, 4),
        decreases left,
    {
        let ghost before = numbers@;
        numbers.push(read_be16(rest, pos));
        assert(numbers@ + page_numbers(rest@, left - 1, pos + 4) =~= before + page_numbers(
            rest@,
            left as int,
            pos as int,
        ));
        left = left - 1;
        pos = pos + 4;
    }
    assert(numbers@ =~= numbers@ + page_numbers(rest@, left as int, pos as int));
    Ok(BlockPage { numbers, more: !done, seq })
}

/// `s` is in ascending order.
pub open spec fn sorted(s: Seq<u16>) -> bool {
    forall|i: int, j: int| 0 <= i < j < s.len() ==> s[i] <= s[j]
}

/// Sorts block numbers in ascending order.
pub fn sort_numbers(v: &mut Vec<u16>)
    ensures
        sorted(final(v)@),
        final(v)@.to_multiset() == old(v)@.to_multiset(),
{
    let n = v.len();
    let mut i: usize = 1;
    proof {
        broadcast use vstd::seq_lib::group_to_multiset_ensures;
    }
    if n == 0 {
        return;
    }
    while i < n
        invariant
            1 <= i <= n,
            n == v@.len(),
            forall|a: int, b: int| 0 <= a < b < i ==> v@[a] <= v@[b],
            v@.to_multiset() == old(v)@.to_multiset(),
        decreases n - i,
    {
        let mut j = i;
        while j > 0 && v[j - 1] > v[j]
            invariant
                0 <= j <= i < n,
                n == v@.len(),
                v@.to_multiset() == old(v)@.to_multiset(),
                forall|a: int, b: int| 0 <= a < b <= i && b != j && a != j ==> v@[a] <= v@[b],
                forall|b: int| j < b <= i ==> v@[j as int] <= v@[b],
                j > 0 && j < i ==> v@[j - 1] <= v@[j + 1],
            decreases j,
        {
            let a = v[j - 1];
            let b = v[j];
            let ghost before = v@;
            v.set(j - 1, b);
            v.set(j, a);
            proof {
                broadcast use vstd::seq_lib::group_to_multiset_ensures;
                broadcast use vstd::multiset::group_multiset_axioms;
                let mid = before.update(j - 1, b);
                assert(v@ =~= mid.update(j as int, a));
                assert(mid.to_multiset() == before.to_multiset().insert(b).remove(a));
                assert(v@.to_multiset() == mid.to_multiset().insert(a).remove(b));
                assert(v@.to_multiset() =~= before.to_multiset());
            }
            j = j - 1;
        }
        i = i + 1;
    }
}

/// The five ASCII digits of a block number (modulo 100000).
pub open spec fn block_number_digits(n: u16) -> Seq<u8> {
    seq![
        (n / 10000 + 0x30) as u8,
        ((n % 10000) / 1000 + 0x30) as u8,
        ((n % 1000) / 100 + 0x30) as u8,
        ((n % 100) / 10 + 0x30) as u8,
        (n % 10 + 0x30) as u8,
    ]
}

/// The parameters of a block-information request.
pub open spec fn block_info_params() -> Seq<u8> {
    seq![0x00u8, 0x01, 0x12, 0x04, 0x11, 0x43, 0x03, 0x00]
}

/// The data of a block-information request: envelope, block type, the number
/// in five ASCII digits, and 'A'.
pub open spec fn block_info_data(block_type: u8, block_number: u16) -> Seq<u8> {
    seq![0xFFu8, 0x09, 0x00, 0x08, 0x30, block_type] + block_number_digits(block_number) + seq![0x41u8]
}

/// Builds the parameters and data of a block-information request.
pub fn block_info_request(block_type: u8, block_number: u16) -> (r: (Vec<u8>, Vec<u8>))
    ensures
        r.0@ == block_info_params(),
        r.1@ == block_info_data(block_type, block_number),
{
    let param = vec![0x00u8, 0x01, 0x12, 0x04, 0x11, 0x43, 0x03, 0x00];
    let n = block_number;
    let data = vec![
        0xFFu8,
        0x09,
        0x00,
        0x08,
        0x30,
        block_type,
        (n / 10000 + 0x30) as u8,
        ((n % 10000) / 1000 + 0x30) as u8,
        ((n % 1000) / 100 + 0x30) as u8,
        ((n % 100) / 10 + 0x30) as u8,
        (n % 10 + 0x30) as u8,
        0x41,
    ];
    assert(param@ =~= block_info_params());
    assert(data@ =~= block_info_data(block_type, block_number));
    (param, data)
}

/// What an answer to a block-information request gives: the data after the
/// 4-byte envelope. An answer shorter than its parameters, or than the envelope,
/// is refused (`None`); a non-zero error number in the 12-byte parameters, or a
/// return code other than success, is a PLC error with its code and message.
pub open spec fn block_info_reply_spec(param_len: u16, body: Seq<u8>) -> Result<Seq<u8>, Option<(u32, Seq<char>)>> {
    if body.len() < param_len {
        Err(None)
    } else {
        let params = body.subrange(0, param_len as int);
        let rest = body.subrange(param_len as int, body.len() as int);
        if params.len() >= 12 && be16_at(params, 10) != 0 {
            Err(Some((be16_at(params, 10) as u32, "block info error: ErrNo=0x"@ + hex4(be16_at(params, 10)))))
        } else if rest.len() < 4 {
            Err(None)
        } else if rest[0] != 0xFF {
            Err(Some((rest[0] as u32, "block info RetVal=0x"@ + hex2(rest[0]))))
        } else {
            Ok(rest.subrange(4, rest.len() as int))
        }
    }
}

/// Reads the answer to a block-information request.
pub fn block_info_reply(param_len: u16, body: &[u8]) -> (r: Result<Vec<u8>, Error>)
    ensures
        match block_info_reply_spec(param_len, body@) {
            Ok(d) => (r matches Ok(v) && v@ == d),
            Err(None) => r == Err::<Vec<u8>, Error>(Error::UnexpectedResponse),
            Err(Some((code, m))) => (r matches Err(Error::PlcError { code: c, message }) && c == code
                && message@ == m),
        },
{
    let pl = param_len as usize;
    if body.len() < pl {
        return Err(Error::UnexpectedResponse);
    }
    if pl >= 12 {
        let err_no = read_be16(body, 10);
        if err_no != 0 {
            let mut m = text("block info error: ErrNo=0x");
            push_hex4(&mut m, err_no);
            return Err(Error::PlcError { code: err_no as u32, message: m });
        }
    }
    let rest = &body[pl..body.len()];
    if rest.len() < 4 {
        return Err(Error::UnexpectedResponse);
    }
    if rest[0] != 0xFF {
        let mut m = text("block info RetVal=0x");
        push_hex2(&mut m, rest[0]);
        return Err(Error::PlcError { code: rest[0] as u32, message: m });
    }
    Ok(copy_range(rest, 4, rest.len()))
}

/// A text field of block information: the bytes up to the first zero, trimmed.
pub open spec fn field_text(s: Seq<u8>) -> Seq<u8> {
    text_trim(s.subrange(0, find_from(s, 0, 0)))
}

fn field_string(s: &[u8]) -> (r: String)
    ensures
        r@ == lossy_text(field_text(s@)),
{
    let z = crate::ascii::find_byte(s, 0, 0);
    let t = crate::text::trimmed_bytes(&s[0..z]);
    lossy_string(t.as_slice())
}

/// The texts, numbers and sizes a block-information record holds, as plain values.
pub struct BlockInfoModel {
    pub block_type: u16,
    pub block_number: u16,
    pub language: u16,
    pub flags: u16,
    pub size: u16,
    pub size_ram: u16,
    pub mc7_size: u16,
    pub local_data: u16,
    pub checksum: u16,
    pub version: u16,
    pub author: Seq<u8>,
    pub family: Seq<u8>,
    pub header: Seq<u8>,
}

/// The model's texts and numbers, as a block information value carries them.
pub open spec fn info_matches(i: BlockInfo, m: BlockInfoModel) -> bool {
    &&& i.block_type == m.block_type
    &&& i.block_number == m.block_number
    &&& i.language == m.language
    &&& i.flags == m.flags
    &&& i.size == m.size
    &&& i.size_ram == m.size_ram
    &&& i.mc7_size == m.mc7_size
    &&& i.local_data == m.local_data
    &&& i.checksum == m.checksum
    &&& i.version == m.version
    &&& i.author@ == lossy_text(m.author)
    &&& i.family@ == lossy_text(m.family)
    &&& i.header@ == lossy_text(m.header)
    &&& i.date@.len() == 0
}

/// The load size as the 16-bit size field: at most 65535.
pub open spec fn size16(n: int) -> u16 {
    if n > 0xFFFF {
        0xFFFF
    } else {
        n as u16
    }
}

/// `p[from..from + n]`, cut at the end of `p`.
pub open spec fn clamp_range(p: Seq<u8>, from: int, n: int) -> Seq<u8> {
    if from >= p.len() {
        Seq::empty()
    } else if p.len() - from < n {
        p.subrange(from, p.len() as int)
    } else {
        p.subrange(from, from + n)
    }
}

/// What the block information record of an answer gives (42 bytes or more):
/// type, flags, language, load size, SBB length, local data, MC7 size at their
/// offsets, then author, family and header (8 bytes each, cut at the end),
/// version and checksum when present. Records under 40 bytes are refused.
pub open spec fn block_record_spec(p: Seq<u8>, block_number: u16) -> BlockInfoModel {
    BlockInfoModel {
        block_type: p[1] as u16,
        block_number,
        language: p[10] as u16,
        flags: p[9] as u16,
        size: size16(be32_at(p, 14) as int),
        size_ram: be16_at(p, 34),
        mc7_size: be16_at(p, 40),
        local_data: be16_at(p, 38),
        checksum: if p.len() >= 70 {
            be16_at(p, 68)
        } else {
            0
        },
        version: if p.len() >= 67 {
            p[66] as u16
        } else {
            0
        },
        author: field_text(clamp_range(p, 42, 8)),
        family: field_text(clamp_range(p, 50, 8)),
        header: field_text(clamp_range(p, 58, 8)),
    }
}

fn clamp_slice(p: &[u8], from: usize, n: usize) -> (r: &[u8])
    ensures
        r@ == clamp_range(p@, from as int, n as int),
{
    if from >= p.len() {
        &p[0..0]
    } else if p.len() - from < n {
        &p[from..p.len()]
    } else {
        &p[from..from + n]
    }
}

/// Reads the block information record from the data of an answer (the
/// record must not stop inside its MC7 size field).
pub fn block_info_from_record(p: &[u8], block_number: u16) -> (r: Result<BlockInfo, Error>)
    requires
        p@.len() < 40 || p@.len() >= 42,
    ensures
        p@.len() < 40 ==> r == Err::<BlockInfo, Error>(Error::UnexpectedResponse),
        p@.len() >= 40 ==> (r matches Ok(i) && info_matches(i, block_record_spec(p@, block_number))),
{
    if p.len() < 40 {
        return Err(Error::UnexpectedResponse);
    }
    assert(p@.subrange(0, 0) =~= Seq::<u8>::empty());
    let load = read_be32(p, 14);
    let size: u16 = if load > 0xFFFF {
        0xFFFF
    } else {
        load as u16
    };
    let version: u16 = if p.len() >= 67 {
        p[66] as u16
    } else {
        0
    };
    let checksum: u16 = if p.len() >= 70 {
        read_be16(p, 68)
    } else {
        0
    };
    Ok(
        BlockInfo {
            block_type: p[1] as u16,
            block_number,
            language: p[10] as u16,
            flags: p[9] as u16,
            size,
            size_ram: read_be16(p, 34),
            mc7_size: read_be16(p, 40),
            local_data: read_be16(p, 38),
            checksum,
            version,
            author: field_string(clamp_slice(p, 42, 8)),
            family: field_string(clamp_slice(p, 50, 8)),
            header: field_string(clamp_slice(p, 58, 8)),
            date: String::new(),
        },
    )
}

/// Raw block bytes that `parse_block_info` accepts: at least the 36-byte header
/// and 48-byte footer, a load size equal to their length, and MC7 code that
/// ends before the footer region.
pub open spec fn raw_block_ok(d: Seq<u8>) -> bool {
    d.len() >= 84 && be32_at(d, 8) as int == d.len() && be16_at(d, 34) + 36 < d.len()
}

/// What raw block bytes give: header fields, and author, family and header
/// texts and the checksum from the 48-byte footer.
pub open spec fn raw_block_spec(d: Seq<u8>) -> BlockInfoModel {
    let f = d.len() - 48;
    BlockInfoModel {
        block_type: d[5] as u16,
        block_number: be16_at(d, 6),
        language: d[4] as u16,
        flags: d[3] as u16,
        size: size16(d.len() as int),
        size_ram: be16_at(d, 28),
        mc7_size: be16_at(d, 34),
        local_data: be16_at(d, 32),
        checksum: be16_at(d, f + 44),
        version: 0,
        author: field_text(d.subrange(f + 20, f + 28)),
        family: field_text(d.subrange(f + 28, f + 36)),
        header: field_text(d.subrange(f + 36, f + 44)),
    }
}

/// Reads block information from raw block bytes, without a PLC.
pub fn parse_block_info(data: &[u8]) -> (r: Result<BlockInfo, Error>)
    ensures
        raw_block_ok(data@) ==> (r matches Ok(i) && info_matches(i, raw_block_spec(data@))),
        !raw_block_ok(data@) ==> r == Err::<BlockInfo, Error>(Error::UnexpectedResponse),
{
    if data.len() < 84 {
        return Err(Error::UnexpectedResponse);
    }
    let load = read_be32(data, 8) as usize;
    if load != data.len() {
        return Err(Error::UnexpectedResponse);
    }
    let mc7 = read_be16(data, 34) as usize;
    if mc7 + 36 >= load {
        return Err(Error::UnexpectedResponse);
    }
    let f = load - 48;
    let size: u16 = if load > 0xFFFF {
        0xFFFF
    } else {
        load as u16
    };
    Ok(
        BlockInfo {
            block_type: data[5] as u16,
            block_number: read_be16(data, 6),
            language: data[4] as u16,
            flags: data[3] as u16,
            size,
            size_ram: read_be16(data, 28),
            mc7_size: mc7 as u16,
            local_data: read_be16(data, 32),
            checksum: read_be16(data, f + 44),
            version: 0,
            author: field_string(&data[f + 20..f + 28]),
            family: field_string(&data[f + 28..f + 36]),
            header: field_string(&data[f + 36..f + 44]),
            date: String::new(),
        },
    )
}

} // verus!
