//! Symbolic tag addresses such as `DB1,REAL4`, `DB170.WORD10` or `DB70,332.0`.
use vstd::prelude::*;
use vstd::utf8::encode_utf8;
use crate::ascii::{
    all_digits, dec_parse, dec_value, find_byte, find_from, has_prefix, is_alpha, is_digit, parse_dec,
    starts_with,
};
use crate::error::{text, Error};
use crate::text::{is_ascii_bytes, upper_text, upper_text_bytes};
use crate::wire::copy_range;
use crate::proto::s7::header::{Area, TransportSize};

verus! {

/// Where a tag points: area, DB, byte and bit, and how it is transported.
#[derive(Debug, Clone, Copy, PartialEq, Eq, Structural)]
pub struct TagAddress {
    pub area: Area,
    pub db_number: u16,
    pub byte_offset: u32,
    pub bit_offset: u8,
    pub transport: TransportSize,
    pub element_count: u16,
}

/// Why a tag was refused.
#[derive(Debug, Clone, Copy, PartialEq, Eq, Structural)]
pub enum TagFault {
    /// No `,` between area and type (and no `.` that can stand for one).
    InvalidTag,
    /// The DB number is not a number of at most 65535.
    InvalidDbNumber,
    /// The area is not `DB`.
    UnsupportedArea,
    /// The byte of a bit address is not a 32-bit number.
    InvalidByteOffset,
    /// The bit of a bit address is not an 8-bit number.
    InvalidBitOffset,
    /// The bit of a bit address is above 7.
    BitOutOfRange,
    /// The type is none of REAL, DWORD, DINT, WORD, INT, BYTE.
    UnsupportedType,
}

/// The text an error message starts with, before the tag itself.
pub open spec fn fault_prefix(f: TagFault) -> Seq<char> {
    match f {
        TagFault::InvalidTag => "invalid tag: "@,
        TagFault::InvalidDbNumber => "invalid DB number in tag: "@,
        TagFault::UnsupportedArea => "unsupported area in tag: "@,
        TagFault::InvalidByteOffset => "invalid byte offset in tag: "@,
        TagFault::InvalidBitOffset => "invalid bit offset in tag: "@,
        TagFault::BitOutOfRange => "bit offset must be 0-7: "@,
        TagFault::UnsupportedType => "unsupported type in tag: "@,
    }
}

/// A `.` at `p` that follows a digit and precedes a letter: the DB number's end.
pub open spec fn is_dot_sep(s: Seq<u8>, p: int) -> bool {
    1 <= p && p + 1 < s.len() && s[p] == 0x2E && is_digit(s[p - 1]) && is_alpha(s[p + 1])
}

/// The first such `.` at or after `i`, or `s.len()`.
pub open spec fn find_dot_sep(s: Seq<u8>, i: int) -> int
    decreases s.len() - i,
{
    if i >= s.len() {
        s.len() as int
    } else if is_dot_sep(s, i) {
        i
    } else {
        find_dot_sep(s, i + 1)
    }
}

/// A tag without `,` has its first DB-number-ending `.` turned into `,`.
pub open spec fn normalize_tag(s: Seq<u8>) -> Seq<u8> {
    if find_from(s, 0x2C, 0) < s.len() {
        s
    } else if find_dot_sep(s, 0) < s.len() {
        s.update(find_dot_sep(s, 0), 0x2C)
    } else {
        s
    }
}

pub open spec fn kw_db() -> Seq<u8> {
    seq![0x44u8, 0x42]
}

pub open spec fn kw_real() -> Seq<u8> {
    seq![0x52u8, 0x45, 0x41, 0x4C]
}

pub open spec fn kw_dword() -> Seq<u8> {
    seq![0x44u8, 0x57, 0x4F, 0x52, 0x44]
}

pub open spec fn kw_dint() -> Seq<u8> {
    seq![0x44u8, 0x49, 0x4E, 0x54]
}

pub open spec fn kw_word() -> Seq<u8> {
    seq![0x57u8, 0x4F, 0x52, 0x44]
}

pub open spec fn kw_int() -> Seq<u8> {
    seq![0x49u8, 0x4E, 0x54]
}

pub open spec fn kw_byte() -> Seq<u8> {
    seq![0x42u8, 0x59, 0x54, 0x45]
}

/// The byte offset after a type keyword of `n` bytes; 0 when it is not a
/// 32-bit number.
pub open spec fn offset_after(ty: Seq<u8>, n: int) -> u32 {
    match dec_parse(ty.subrange(n, ty.len() as int), u32::MAX as nat) {
        Some(v) => v as u32,
        None => 0,
    }
}

/// A DB tag of the given transport at the given byte.
pub open spec fn db_tag(db: u16, byte: u32, bit: u8, t: TransportSize) -> TagAddress {
    TagAddress {
        area: Area::DataBlock,
        db_number: db,
        byte_offset: byte,
        bit_offset: bit,
        transport: t,
        element_count: 1,
    }
}

/// What a tag's type part gives when it is not a bit address.
pub open spec fn typed_tag(db: u16, ty: Seq<u8>) -> Result<TagAddress, TagFault> {
    if starts_with(ty, kw_real()) {
        Ok(db_tag(db, offset_after(ty, 4), 0, TransportSize::Real))
    } else if starts_with(ty, kw_dword()) {
        Ok(db_tag(db, offset_after(ty, 5), 0, TransportSize::DWord))
    } else if starts_with(ty, kw_dint()) {
        Ok(db_tag(db, offset_after(ty, 4), 0, TransportSize::DInt))
    } else if starts_with(ty, kw_word()) {
        Ok(db_tag(db, offset_after(ty, 4), 0, TransportSize::Word))
    } else if starts_with(ty, kw_int()) {
        Ok(db_tag(db, offset_after(ty, 3), 0, TransportSize::Int))
    } else if starts_with(ty, kw_byte()) {
        Ok(db_tag(db, offset_after(ty, 4), 0, TransportSize::Byte))
    } else {
        Err(TagFault::UnsupportedType)
    }
}

/// A type part that starts with a digit and holds exactly one `.`.
pub open spec fn is_bit_form(ty: Seq<u8>) -> bool {
    ty.len() > 0 && is_digit(ty[0]) && find_from(ty, 0x2E, 0) < ty.len() && find_from(
        ty,
        0x2E,
        find_from(ty, 0x2E, 0) + 1,
    ) == ty.len()
}

/// What the upper-cased area and type parts of a tag give. The area is `DB`
/// and a number; the type is `byte.bit`, or a keyword and a byte offset.
pub open spec fn tag_parts_spec(area: Seq<u8>, ty: Seq<u8>) -> Result<TagAddress, TagFault> {
    if !starts_with(area, kw_db()) {
        Err(TagFault::UnsupportedArea)
    } else {
        match dec_parse(area.subrange(2, area.len() as int), u16::MAX as nat) {
            None => Err(TagFault::InvalidDbNumber),
            Some(db) => {
                if is_bit_form(ty) {
                    let d = find_from(ty, 0x2E, 0);
                    match dec_parse(ty.subrange(0, d), u32::MAX as nat) {
                        None => Err(TagFault::InvalidByteOffset),
                        Some(byte) => match dec_parse(ty.subrange(d + 1, ty.len() as int), u8::MAX as nat) {
                            None => Err(TagFault::InvalidBitOffset),
                            Some(bit) => if bit > 7 {
                                Err(TagFault::BitOutOfRange)
                            } else {
                                Ok(db_tag(db as u16, byte as u32, bit as u8, TransportSize::Bit))
                            },
                        },
                    }
                } else {
                    typed_tag(db as u16, ty)
                }
            },
        }
    }
}

/// What parsing the bytes of a tag gives. The tag is split at its first `,`
/// (after normalization) into area and type, both put in upper case as
/// `str::to_uppercase` does.
pub open spec fn parse_tag_spec(tag: Seq<u8>) -> Result<TagAddress, TagFault> {
    let s = normalize_tag(tag);
    let c = find_from(s, 0x2C, 0);
    if c >= s.len() {
        Err(TagFault::InvalidTag)
    } else {
        tag_parts_spec(upper_text(s.subrange(0, c)), upper_text(s.subrange(c + 1, s.len() as int)))
    }
}

fn find_dot_sep_exec(s: &[u8]) -> (r: usize)
    ensures
        r as int == find_dot_sep(s@, 0),
        r <= s@.len(),
{
    let mut i: usize = 0;
    while i < s.len()
        invariant
            i <= s@.len(),
            find_dot_sep(s@, 0) == find_dot_sep(s@, i as int),
        decreases s@.len() - i,
    {
        if i >= 1 && i + 1 < s.len() && s[i] == 0x2E && 48 <= s[i - 1] && s[i - 1] <= 57 && ((65
            <= s[i + 1] && s[i + 1] <= 90) || (97 <= s[i + 1] && s[i + 1] <= 122)) {
            return i;
        }
        i = i + 1;
    }
    i
}

fn normalize(s: &[u8]) -> (r: Vec<u8>)
    ensures
        r@ == normalize_tag(s@),
{
    let mut v: Vec<u8> = copy_range(s, 0, s.len());
    if find_byte(s, 0x2C, 0) < s.len() {
        return v;
    }
    let p = find_dot_sep_exec(s);
    if p < s.len() {
        v.set(p, 0x2C);
    }
    v
}

fn typed_tag_exec(db: u16, ty: &[u8]) -> (r: Result<TagAddress, TagFault>)
    ensures
        r == typed_tag(db, ty@),
{
    let (t, n): (TransportSize, usize) = if has_prefix(ty, &[0x52, 0x45, 0x41, 0x4C]) {
        (TransportSize::Real, 4)
    } else if has_prefix(ty, &[0x44, 0x57, 0x4F, 0x52, 0x44]) {
        (TransportSize::DWord, 5)
    } else if has_prefix(ty, &[0x44, 0x49, 0x4E, 0x54]) {
        (TransportSize::DInt, 4)
    } else if has_prefix(ty, &[0x57, 0x4F, 0x52, 0x44]) {
        (TransportSize::Word, 4)
    } else if has_prefix(ty, &[0x49, 0x4E, 0x54]) {
        (TransportSize::Int, 3)
    } else if has_prefix(ty, &[0x42, 0x59, 0x54, 0x45]) {
        (TransportSize::Byte, 4)
    } else {
        return Err(TagFault::UnsupportedType);
    };
    let offset: u32 = match parse_dec(&ty[n..ty.len()], 0xFFFF_FFFF) {
        Some(v) => v as u32,
        None => 0,
    };
    Ok(
        TagAddress {
            area: Area::DataBlock,
            db_number: db,
            byte_offset: offset,
            bit_offset: 0,
            transport: t,
            element_count: 1,
        },
    )
}

/// Parses the bytes of a tag.
pub fn parse_tag_bytes(tag: &[u8]) -> (r: Result<TagAddress, TagFault>)
    ensures
        r == parse_tag_spec(tag@),
{
    let s = normalize(tag);
    let c = find_byte(s.as_slice(), 0x2C, 0);
    if c >= s.len() {
        return Err(TagFault::InvalidTag);
    }
    let area = upper_text_bytes(&s.as_slice()[0..c]);
    let ty = upper_text_bytes(&s.as_slice()[c + 1..s.len()]);
    parse_tag_parts(area.as_slice(), ty.as_slice())
}

/// Parses the upper-cased area and type parts of a tag.
pub fn parse_tag_parts(area: &[u8], ty: &[u8]) -> (r: Result<TagAddress, TagFault>)
    ensures
        r == tag_parts_spec(area@, ty@),
{
    if !has_prefix(area, &[0x44, 0x42]) {
        return Err(TagFault::UnsupportedArea);
    }
    let db = match parse_dec(&area[2..area.len()], 0xFFFF) {
        Some(v) => v as u16,
        None => {
            return Err(TagFault::InvalidDbNumber);
        },
    };
    let tys = ty;
    if tys.len() > 0 && 48 <= tys[0] && tys[0] <= 57 {
        let d = find_byte(tys, 0x2E, 0);
        if d < tys.len() && find_byte(tys, 0x2E, d + 1) == tys.len() {
            let byte = match parse_dec(&tys[0..d], 0xFFFF_FFFF) {
                Some(v) => v as u32,
                None => {
                    return Err(TagFault::InvalidByteOffset);
                },
            };
            let bit = match parse_dec(&tys[d + 1..tys.len()], 0xFF) {
                Some(v) => v as u8,
                None => {
                    return Err(TagFault::InvalidBitOffset);
                },
            };
            if bit > 7 {
                return Err(TagFault::BitOutOfRange);
            }
            return Ok(
                TagAddress {
                    area: Area::DataBlock,
                    db_number: db,
                    byte_offset: byte,
                    bit_offset: bit,
                    transport: TransportSize::Bit,
                    element_count: 1,
                },
            );
        }
    }
    typed_tag_exec(db, tys)
}

/// The error a refused tag gets: code 0 and a message naming the fault and the tag.
pub fn tag_error(f: TagFault, tag: &str) -> (r: Error)
    ensures
        r matches Error::PlcError { code, message } && code == 0 && message@ == fault_prefix(f)
            + tag@,
{
    let mut m = match f {
        TagFault::InvalidTag => text("invalid tag: "),
        TagFault::InvalidDbNumber => text("invalid DB number in tag: "),
        TagFault::UnsupportedArea => text("unsupported area in tag: "),
        TagFault::InvalidByteOffset => text("invalid byte offset in tag: "),
        TagFault::InvalidBitOffset => text("invalid bit offset in tag: "),
        TagFault::BitOutOfRange => text("bit offset must be 0-7: "),
        TagFault::UnsupportedType => text("unsupported type in tag: "),
    };
    m.append(tag);
    Error::PlcError { code: 0, message: m }
}

/// Parses a tag such as `DB1,REAL4`, `DB170.REAL262` or `DB70,332.0`.
pub fn parse_tag(tag: &str) -> (r: Result<TagAddress, Error>)
    ensures
        match parse_tag_spec(encode_utf8(tag@)) {
            Ok(t) => r == Ok::<TagAddress, Error>(t),
            Err(f) => r matches Err(Error::PlcError { code, message }) && code == 0 && message@
                == fault_prefix(f) + tag@,
        },
{
    match parse_tag_bytes(tag.as_bytes()) {
        Ok(t) => Ok(t),
        Err(f) => Err(tag_error(f, tag)),
    }
}

/// A tag written with `.` between DB number and type parses as the same tag
/// written with `,` there.
pub proof fn lemma_dot_separator_same(tag: Seq<u8>, p: int)
    requires
        find_from(tag, 0x2C, 0) == tag.len(),
        p == find_dot_sep(tag, 0),
        p < tag.len(),
    ensures
        parse_tag_spec(tag) == parse_tag_spec(tag.update(p, 0x2C)),
{
    let t = tag.update(p, 0x2C);
    lemma_find_dot_sep_range(tag, 0);
    lemma_find_from_hit(t, 0x2C, 0, p);
    assert(normalize_tag(t) == t);
    assert(normalize_tag(tag) == t);
}

proof fn lemma_find_dot_sep_range(s: Seq<u8>, i: int)
    requires
        0 <= i,
    ensures
        i <= find_dot_sep(s, i) <= s.len() || (i > s.len() && find_dot_sep(s, i) == s.len()),
        find_dot_sep(s, i) < s.len() ==> is_dot_sep(s, find_dot_sep(s, i)),
    decreases s.len() - i,
{
    if i < s.len() && !is_dot_sep(s, i) {
        lemma_find_dot_sep_range(s, i + 1);
    }
}

proof fn lemma_find_from_hit(s: Seq<u8>, c: u8, i: int, p: int)
    requires
        0 <= i <= p < s.len(),
        s[p] == c,
    ensures
        find_from(s, c, i) < s.len(),
    decreases p - i,
{
    if s[i] != c {
        lemma_find_from_hit(s, c, i + 1, p);
    }
}

/// The decimal digits of `n`, most significant first.
pub open spec fn dec_bytes(n: nat) -> Seq<u8>
    decreases n,
{
    if n < 10 {
        seq![(48 + n) as u8]
    } else {
        dec_bytes(n / 10).push((48 + n % 10) as u8)
    }
}

/// The keyword of a type that a tag names by keyword.
pub open spec fn type_keyword(t: TransportSize) -> Seq<u8> {
    match t {
        TransportSize::Real => kw_real(),
        TransportSize::DWord => kw_dword(),
        TransportSize::DInt => kw_dint(),
        TransportSize::Word => kw_word(),
        TransportSize::Int => kw_int(),
        _ => kw_byte(),
    }
}

/// The types a tag names by keyword.
pub open spec fn is_keyword_type(t: TransportSize) -> bool {
    t == TransportSize::Real || t == TransportSize::DWord || t == TransportSize::DInt || t
        == TransportSize::Word || t == TransportSize::Int || t == TransportSize::Byte
}

proof fn lemma_dec_bytes(n: nat)
    ensures
        dec_bytes(n).len() > 0,
        all_digits(dec_bytes(n)),
        dec_value(dec_bytes(n)) == n,
    decreases n,
{
    if n < 10 {
        let d = dec_bytes(n);
        assert(d.drop_last() =~= Seq::<u8>::empty());
        assert(((48 + n) as u8) as int == 48 + n);
        assert(dec_value(d.drop_last()) == 0);
        assert(d.last() == (48 + n) as u8);
        assert(dec_value(d) == dec_value(d.drop_last()) * 10 + (d.last() - 48) as nat);
    } else {
        lemma_dec_bytes(n / 10);
        let d = dec_bytes(n);
        assert(d.drop_last() =~= dec_bytes(n / 10));
        assert((n / 10) * 10 + n % 10 == n) by (nonlinear_arith);
        assert(d.last() == (48 + n % 10) as u8);
        assert(((48 + n % 10) as u8) as int == 48 + n % 10);
        assert(dec_value(d) == dec_value(d.drop_last()) * 10 + (d.last() - 48) as nat);
        assert(dec_value(d.drop_last()) == n / 10);
        assert forall|i: int| 0 <= i < d.len() implies is_digit(#[trigger] d[i]) by {
            if i < d.len() - 1 {
                assert(d[i] == dec_bytes(n / 10)[i]);
            }
        }
    }
}

proof fn lemma_dec_parse_bytes(n: nat, max: nat)
    requires
        n <= max,
    ensures
        dec_parse(dec_bytes(n), max) == Some(n),
{
    lemma_dec_bytes(n);
    assert(is_digit(dec_bytes(n)[0]));
}

proof fn lemma_first_dot_sep(s: Seq<u8>, i: int, p: int)
    requires
        0 <= i <= p,
        is_dot_sep(s, p),
        forall|j: int| 0 <= j < p ==> #[trigger] s[j] != 0x2E,
    ensures
        find_dot_sep(s, i) == p,
    decreases p - i,
{
    if i < p {
        lemma_first_dot_sep(s, i + 1, p);
    }
}

proof fn lemma_no_comma(s: Seq<u8>, i: int)
    requires
        0 <= i,
        forall|j: int| 0 <= j < s.len() ==> #[trigger] s[j] != 0x2C,
    ensures
        find_from(s, 0x2C, i) == s.len() || i > s.len(),
    decreases s.len() - i,
{
    if i < s.len() {
        lemma_no_comma(s, i + 1);
    }
}

/// Upper-case tag parts `DB` n and a type keyword followed by byte offset k
/// give that DB, byte and type.
pub proof fn lemma_keyword_tag_parts(n: u16, k: u32, t: TransportSize)
    requires
        is_keyword_type(t),
    ensures
        tag_parts_spec(kw_db() + dec_bytes(n as nat), type_keyword(t) + dec_bytes(k as nat)) == Ok::<
            TagAddress,
            TagFault,
        >(db_tag(n, k, 0, t)),
{
    let area = kw_db() + dec_bytes(n as nat);
    let kw = type_keyword(t);
    let ty = kw + dec_bytes(k as nat);
    lemma_dec_bytes(n as nat);
    lemma_dec_parse_bytes(n as nat, u16::MAX as nat);
    lemma_dec_parse_bytes(k as nat, u32::MAX as nat);
    assert(area.subrange(0, 2) =~= kw_db());
    assert(area.subrange(2, area.len() as int) =~= dec_bytes(n as nat));
    assert(!is_digit(ty[0]));
    assert(ty.subrange(kw.len() as int, ty.len() as int) =~= dec_bytes(k as nat));
    assert(ty.subrange(0, kw.len() as int) =~= kw);
    assert(ty[0] == kw[0] && ty[1] == kw[1] && ty[2] == kw[2]);
    assert(!starts_with(ty, kw_real()) ==> ty.subrange(0, 4) != kw_real());
    if t == TransportSize::Real {
    } else if t == TransportSize::DWord {
        assert(ty.subrange(0, 4) != kw_real()) by {
            assert(ty.subrange(0, 4)[0] != kw_real()[0]);
        }
    } else if t == TransportSize::DInt {
        assert(ty.subrange(0, 4) != kw_real()) by {
            assert(ty.subrange(0, 4)[0] != kw_real()[0]);
        }
        assert(ty.len() < 5 || ty.subrange(0, 5) != kw_dword()) by {
            if ty.len() >= 5 {
                assert(ty.subrange(0, 5)[1] != kw_dword()[1]);
            }
        }
    } else if t == TransportSize::Word {
        assert(ty.subrange(0, 4) != kw_real()) by {
            assert(ty.subrange(0, 4)[0] != kw_real()[0]);
        }
        assert(ty.len() < 5 || ty.subrange(0, 5) != kw_dword()) by {
            if ty.len() >= 5 {
                assert(ty.subrange(0, 5)[0] != kw_dword()[0]);
            }
        }
        assert(ty.subrange(0, 4) != kw_dint()) by {
            assert(ty.subrange(0, 4)[0] != kw_dint()[0]);
        }
    } else if t == TransportSize::Int {
        assert(ty.len() < 4 || ty.subrange(0, 4) != kw_real()) by {
            if ty.len() >= 4 {
                assert(ty.subrange(0, 4)[0] != kw_real()[0]);
            }
        }
        assert(ty.len() < 5 || ty.subrange(0, 5) != kw_dword()) by {
            if ty.len() >= 5 {
                assert(ty.subrange(0, 5)[0] != kw_dword()[0]);
            }
        }
        assert(ty.len() < 4 || ty.subrange(0, 4) != kw_dint()) by {
            if ty.len() >= 4 {
                assert(ty.subrange(0, 4)[0] != kw_dint()[0]);
            }
        }
        assert(ty.len() < 4 || ty.subrange(0, 4) != kw_word()) by {
            if ty.len() >= 4 {
                assert(ty.subrange(0, 4)[0] != kw_word()[0]);
            }
        }
    } else {
        assert(ty.subrange(0, 4) != kw_real()) by {
            assert(ty.subrange(0, 4)[0] != kw_real()[0]);
        }
        assert(ty.len() < 5 || ty.subrange(0, 5) != kw_dword()) by {
            if ty.len() >= 5 {
                assert(ty.subrange(0, 5)[0] != kw_dword()[0]);
            }
        }
        assert(ty.subrange(0, 4) != kw_dint()) by {
            assert(ty.subrange(0, 4)[0] != kw_dint()[0]);
        }
        assert(ty.subrange(0, 4) != kw_word()) by {
            assert(ty.subrange(0, 4)[0] != kw_word()[0]);
        }
        assert(ty.subrange(0, 3) != kw_int()) by {
            assert(ty.subrange(0, 3)[0] != kw_int()[0]);
        }
    }
}

/// The bytes of the tag `DB`n, separator `sep`, type keyword of `t`, and k.
pub open spec fn keyword_tag_bytes(n: u16, k: u32, t: TransportSize, sep: u8) -> Seq<u8> {
    (kw_db() + dec_bytes(n as nat)) + seq![sep] + (type_keyword(t) + dec_bytes(k as nat))
}

proof fn lemma_keyword_tag_bytes(n: u16, k: u32, t: TransportSize)
    requires
        is_keyword_type(t),
    ensures
        ({
            let d = keyword_tag_bytes(n, k, t, 0x2E);
            let p = 2 + dec_bytes(n as nat).len() as int;
            &&& find_from(d, 0x2C, 0) == d.len()
            &&& find_dot_sep(d, 0) == p
            &&& p < d.len()
            &&& d.update(p, 0x2C) == keyword_tag_bytes(n, k, t, 0x2C)
        }),
{
    lemma_dec_bytes(n as nat);
    lemma_dec_bytes(k as nat);
    let a = kw_db() + dec_bytes(n as nat);
    let kw = type_keyword(t);
    let b = kw + dec_bytes(k as nat);
    let d = keyword_tag_bytes(n, k, t, 0x2E);
    let p = a.len() as int;
    assert(kw.len() >= 3);
    assert forall|j: int| 0 <= j < d.len() implies #[trigger] d[j] != 0x2C by {
        if j < 2 {
        } else if j < p {
            assert(d[j] == dec_bytes(n as nat)[j - 2]);
            assert(is_digit(dec_bytes(n as nat)[j - 2]));
        } else if j == p {
        } else if j < p + 1 + kw.len() {
            assert(d[j] == kw[j - p - 1]);
        } else {
            assert(d[j] == dec_bytes(k as nat)[j - p - 1 - kw.len()]);
            assert(is_digit(dec_bytes(k as nat)[j - p - 1 - kw.len()]));
        }
    }
    lemma_no_comma(d, 0);
    assert forall|j: int| 0 <= j < p implies #[trigger] d[j] != 0x2E by {
        if j >= 2 {
            assert(d[j] == dec_bytes(n as nat)[j - 2]);
            assert(is_digit(dec_bytes(n as nat)[j - 2]));
        }
    }
    assert(d[p - 1] == dec_bytes(n as nat)[p - 3]);
    assert(d[p + 1] == kw[0]);
    lemma_first_dot_sep(d, 0, p);
    assert(d.update(p, 0x2C) =~= keyword_tag_bytes(n, k, t, 0x2C));
}

/// A tag `DB`n`.`T k (type keyword T, byte offset k, in decimal) parses as the
/// same tag written with `,`, and its upper-cased parts give DB n, byte k and
/// type T.
pub proof fn lemma_keyword_tag(n: u16, k: u32, t: TransportSize)
    requires
        is_keyword_type(t),
    ensures
        parse_tag_spec(keyword_tag_bytes(n, k, t, 0x2E)) == parse_tag_spec(keyword_tag_bytes(n, k, t, 0x2C)),
        parse_tag_spec(keyword_tag_bytes(n, k, t, 0x2C)) == Ok::<TagAddress, TagFault>(db_tag(n, k, 0, t)),
{
    lemma_keyword_tag_parts(n, k, t);
    lemma_keyword_tag_bytes(n, k, t);
    lemma_dec_bytes(n as nat);
    lemma_dec_bytes(k as nat);
    lemma_dot_separator_same(keyword_tag_bytes(n, k, t, 0x2E), 2 + dec_bytes(n as nat).len() as int);
    let c = keyword_tag_bytes(n, k, t, 0x2C);
    let a = kw_db() + dec_bytes(n as nat);
    let b = type_keyword(t) + dec_bytes(k as nat);
    let p = a.len() as int;
    assert(c.subrange(0, p) =~= a);
    assert(c.subrange(p + 1, c.len() as int) =~= b);
    assert(c[p] == 0x2C);
    assert forall|j: int| 0 <= j < p implies #[trigger] c[j] != 0x2C by {
        if j >= 2 {
            assert(c[j] == dec_bytes(n as nat)[j - 2]);
            assert(is_digit(dec_bytes(n as nat)[j - 2]));
        }
    }
    lemma_first_comma(c, 0, p);
    assert(normalize_tag(c) == c);
    lemma_upper_plain(a);
    lemma_upper_plain(b);
}

proof fn lemma_first_comma(s: Seq<u8>, i: int, p: int)
    requires
        0 <= i <= p < s.len(),
        s[p] == 0x2C,
        forall|j: int| 0 <= j < p ==> #[trigger] s[j] != 0x2C,
    ensures
        find_from(s, 0x2C, i) == p,
    decreases p - i,
{
    if i < p {
        lemma_first_comma(s, i + 1, p);
    }
}

/// Bytes that are upper-case letters and digits are ASCII and stay as they are
/// in upper case.
proof fn lemma_upper_plain(s: Seq<u8>)
    requires
        forall|j: int| 0 <= j < s.len() ==> (65 <= #[trigger] s[j] <= 90) || is_digit(s[j]),
    ensures
        is_ascii_bytes(s),
        upper_text(s) == s,
{
    assert(crate::ascii::upper(s) =~= s);
}

/// Upper case keeps ASCII, digits, letters, `.` and `,` where they are.
proof fn lemma_upper_classes(s: Seq<u8>)
    requires
        is_ascii_bytes(s),
    ensures
        is_ascii_bytes(crate::ascii::upper(s)),
        crate::ascii::upper(s).len() == s.len(),
        forall|j: int| 0 <= j < s.len() ==> {
            &&& is_digit(#[trigger] crate::ascii::upper(s)[j]) == is_digit(s[j])
            &&& is_alpha(crate::ascii::upper(s)[j]) == is_alpha(s[j])
            &&& (crate::ascii::upper(s)[j] == 0x2E) == (s[j] == 0x2E)
            &&& (crate::ascii::upper(s)[j] == 0x2C) == (s[j] == 0x2C)
        },
        crate::ascii::upper(crate::ascii::upper(s)) == crate::ascii::upper(s),
{
    let u = crate::ascii::upper(s);
    assert forall|j: int| 0 <= j < u.len() implies #[trigger] u[j] < 128 by {
        assert(s[j] < 128);
    }
    assert(crate::ascii::upper(u) =~= u);
}

proof fn lemma_find_comma_upper(s: Seq<u8>, i: int)
    requires
        0 <= i,
        is_ascii_bytes(s),
    ensures
        find_from(crate::ascii::upper(s), 0x2C, i) == find_from(s, 0x2C, i),
    decreases s.len() - i,
{
    lemma_upper_classes(s);
    if i < s.len() {
        lemma_find_comma_upper(s, i + 1);
    }
}

proof fn lemma_find_dot_sep_upper(s: Seq<u8>, i: int)
    requires
        0 <= i,
        is_ascii_bytes(s),
    ensures
        find_dot_sep(crate::ascii::upper(s), i) == find_dot_sep(s, i),
    decreases s.len() - i,
{
    lemma_upper_classes(s);
    let u = crate::ascii::upper(s);
    if i < s.len() {
        if 1 <= i && i + 1 < s.len() {
            assert(is_dot_sep(u, i) == is_dot_sep(s, i)) by {
                assert(is_digit(u[i - 1]) == is_digit(s[i - 1]));
                assert(is_alpha(u[i + 1]) == is_alpha(s[i + 1]));
                assert((u[i] == 0x2E) == (s[i] == 0x2E));
            }
        }
        lemma_find_dot_sep_upper(s, i + 1);
    }
}

/// Parsing an ASCII tag gives the same as parsing its ASCII upper case: tags
/// are read without regard to case.
pub proof fn lemma_tag_case_insensitive(tag: Seq<u8>)
    requires
        is_ascii_bytes(tag),
    ensures
        parse_tag_spec(crate::ascii::upper(tag)) == parse_tag_spec(tag),
{
    let u = crate::ascii::upper(tag);
    lemma_upper_classes(tag);
    lemma_find_comma_upper(tag, 0);
    lemma_find_dot_sep_upper(tag, 0);
    let s = normalize_tag(tag);
    let su = normalize_tag(u);
    lemma_find_dot_sep_range(tag, 0);
    if find_from(tag, 0x2C, 0) < tag.len() {
        assert(s == tag);
        assert(su == u);
    } else if find_dot_sep(tag, 0) < tag.len() {
        let p = find_dot_sep(tag, 0);
        assert(s == tag.update(p, 0x2C));
        assert(su == u.update(p, 0x2C));
        assert(su =~= crate::ascii::upper(s));
    } else {
        assert(s == tag);
        assert(su == u);
    }
    assert(su =~= crate::ascii::upper(s));
    assert(is_ascii_bytes(s)) by {
        assert forall|j: int| 0 <= j < s.len() implies #[trigger] s[j] < 128 by {
            assert(s[j] == tag[j] || s[j] == 0x2C);
        }
    }
    lemma_find_comma_upper(s, 0);
    crate::ascii::lemma_find_from_ge(s, 0x2C, 0);
    let c = find_from(s, 0x2C, 0);
    if c < s.len() {
        let a = s.subrange(0, c);
        let b = s.subrange(c + 1, s.len() as int);
        assert(su.subrange(0, c) =~= crate::ascii::upper(a));
        assert(su.subrange(c + 1, su.len() as int) =~= crate::ascii::upper(b));
        assert(is_ascii_bytes(a)) by {
            assert forall|j: int| 0 <= j < a.len() implies #[trigger] a[j] < 128 by {
                assert(a[j] == s[j]);
            }
        }
        assert(is_ascii_bytes(b)) by {
            assert forall|j: int| 0 <= j < b.len() implies #[trigger] b[j] < 128 by {
                assert(b[j] == s[c + 1 + j]);
            }
        }
        lemma_upper_classes(a);
        lemma_upper_classes(b);
    }
}

} // verus!
