//! Turning PLC bytes into text: trimming, lossy UTF-8 decoding, and decimal or
//! hexadecimal rendering of numbers for messages.
use vstd::prelude::*;
use vstd::utf8::{
    decode_utf8, encode_utf8, encode_utf8_decode_utf8, encode_utf8_valid_utf8, is_ascii_chars,
    is_ascii_chars_encode_utf8, valid_utf8,
};
use crate::wire::copy_range;
use crate::error::text;

verus! {

/// The text `String::from_utf8_lossy` makes of `b`.
pub uninterp spec fn utf8_lossy(b: Seq<u8>) -> Seq<char>;

/// The bytes as text, by `String::from_utf8_lossy` (each invalid sequence becomes
/// U+FFFD). Trusted: the result is the named lossy decoding of the bytes; for
/// valid UTF-8 it is the decoded text itself, as the documentation says; and it
/// is empty exactly when the bytes are (the source returns `""` for no bytes and
/// emits a character or U+FFFD for every chunk of the others).
#[verifier::external_body]
pub(crate) fn lossy_string(b: &[u8]) -> (r: String)
    ensures
        r@ == utf8_lossy(b@),
        valid_utf8(b@) ==> r@ == decode_utf8(b@),
        r@.len() == 0 <==> b@.len() == 0,
{
    String::from_utf8_lossy(b).into_owned()
}

/// The text of `b` as `String::from_utf8_lossy` makes it: the decoded text
/// when `b` is valid UTF-8, else the named lossy decoding.
pub open spec fn lossy_text(b: Seq<u8>) -> Seq<char> {
    if valid_utf8(b) {
        decode_utf8(b)
    } else {
        utf8_lossy(b)
    }
}

/// Every byte of `b` is ASCII.
pub open spec fn is_ascii_bytes(b: Seq<u8>) -> bool {
    forall|i: int| 0 <= i < b.len() ==> #[trigger] b[i] < 128
}

/// ASCII upper case of one character: `a` to `z` become `A` to `Z`; every
/// other character is left alone.
pub open spec fn ascii_upper_char(c: char) -> char {
    if 'a' <= c <= 'z' {
        ((c as u32) - 32) as char
    } else {
        c
    }
}

/// ASCII bytes read as characters, and their UTF-8 encoding is themselves.
pub proof fn lemma_ascii_bytes_text(b: Seq<u8>)
    requires
        is_ascii_bytes(b),
    ensures
        valid_utf8(b),
        decode_utf8(b) == Seq::new(b.len(), |i: int| b[i] as char),
        is_ascii_chars(decode_utf8(b)),
{
    let cs = Seq::new(b.len(), |i: int| b[i] as char);
    assert(is_ascii_chars(cs)) by {
        assert forall|i: int| 0 <= i < cs.len() implies '\0' <= #[trigger] cs[i] <= '\u{7f}' by {
            assert(b[i] < 128);
        }
    }
    is_ascii_chars_encode_utf8(cs);
    assert forall|i: int| 0 <= i < b.len() implies #[trigger] encode_utf8(cs)[i] == b[i] by {
        assert(cs[i] as u8 == encode_utf8(cs)[i]);
        assert((b[i] as char) as u8 == b[i]);
    }
    assert(encode_utf8(cs) =~= b);
    encode_utf8_valid_utf8(cs);
    encode_utf8_decode_utf8(cs);
}

/// ASCII white space: tab, line feed, vertical tab, form feed, carriage return, space.
pub open spec fn is_ws(b: u8) -> bool {
    (9 <= b <= 13) || b == 32
}

/// The number of leading white-space bytes of `s` from `i` on.
pub open spec fn lead_ws(s: Seq<u8>, i: int) -> int
    decreases s.len() - i,
{
    if i >= s.len() || !is_ws(s[i]) {
        i
    } else {
        lead_ws(s, i + 1)
    }
}

/// The end of `s[..j]` once trailing white space is removed, stopping at `lo`.
pub open spec fn trail_ws(s: Seq<u8>, lo: int, j: int) -> int
    decreases j - lo,
{
    if j <= lo || !is_ws(s[j - 1]) {
        j
    } else {
        trail_ws(s, lo, j - 1)
    }
}

/// `s` without leading and trailing ASCII white space.
pub open spec fn trim_ws(s: Seq<u8>) -> Seq<u8> {
    let a = lead_ws(s, 0);
    s.subrange(a, trail_ws(s, a, s.len() as int))
}

proof fn lemma_lead_ws(s: Seq<u8>, i: int)
    requires
        0 <= i <= s.len(),
    ensures
        i <= lead_ws(s, i) <= s.len(),
    decreases s.len() - i,
{
    if i < s.len() && is_ws(s[i]) {
        lemma_lead_ws(s, i + 1);
    }
}

proof fn lemma_trail_ws(s: Seq<u8>, lo: int, j: int)
    requires
        0 <= lo <= j <= s.len(),
    ensures
        lo <= trail_ws(s, lo, j) <= j,
    decreases j - lo,
{
    if j > lo && is_ws(s[j - 1]) {
        lemma_trail_ws(s, lo, j - 1);
    }
}

/// The bounds of `s` once leading and trailing white space are removed.
pub fn trim_bounds(s: &[u8]) -> (r: (usize, usize))
    ensures
        r.0 as int == lead_ws(s@, 0),
        r.1 as int == trail_ws(s@, lead_ws(s@, 0), s@.len() as int),
        r.0 <= r.1 <= s@.len(),
{
    proof {
        lemma_lead_ws(s@, 0);
    }
    let mut a: usize = 0;
    while a < s.len() && ((9 <= s[a] && s[a] <= 13) || s[a] == 32)
        invariant
            a <= s@.len(),
            lead_ws(s@, 0) == lead_ws(s@, a as int),
        decreases s@.len() - a,
    {
        a = a + 1;
    }
    proof {
        lemma_trail_ws(s@, a as int, s@.len() as int);
    }
    let mut b: usize = s.len();
    while b > a && ((9 <= s[b - 1] && s[b - 1] <= 13) || s[b - 1] == 32)
        invariant
            a <= b <= s@.len(),
            a == lead_ws(s@, 0),
            trail_ws(s@, a as int, s@.len() as int) == trail_ws(s@, a as int, b as int),
        decreases b - a,
    {
        b = b - 1;
    }
    (a, b)
}

/// The text `str::to_uppercase` makes of `s`.
pub uninterp spec fn unicode_upper(s: Seq<char>) -> Seq<char>;

/// Upper case by `str::to_uppercase` (the Unicode upper-case mapping, which
/// may turn one character into several). Trusted: the result is the named
/// upper-case text of the argument, a function of the argument alone; and for
/// ASCII text it is the ASCII upper case, character by character, as std's
/// documentation of `to_ascii_uppercase` and `to_uppercase` gives it.
#[verifier::external_body]
pub(crate) fn to_upper(s: &str) -> (r: String)
    ensures
        r@ == unicode_upper(s@),
        is_ascii_chars(s@) ==> r@ == s@.map_values(|c: char| ascii_upper_char(c)),
{
    s.to_uppercase()
}

/// The UTF-8 bytes of the text of `b` (decoded lossily) in upper case: for
/// ASCII bytes their ASCII upper case.
pub open spec fn upper_text(b: Seq<u8>) -> Seq<u8> {
    if is_ascii_bytes(b) {
        crate::ascii::upper(b)
    } else {
        encode_utf8(unicode_upper(lossy_text(b)))
    }
}

/// The text of `b`, decoded lossily and put in upper case, as UTF-8 bytes.
pub fn upper_text_bytes(b: &[u8]) -> (r: Vec<u8>)
    ensures
        r@ == upper_text(b@),
{
    let s = lossy_string(b);
    let u = to_upper(s.as_str());
    let bytes = u.as_str().as_bytes();
    proof {
        if is_ascii_bytes(b@) {
            lemma_ascii_bytes_text(b@);
            let cs = s@;
            let us = u@;
            assert(us == cs.map_values(|c: char| ascii_upper_char(c)));
            assert(is_ascii_chars(us)) by {
                assert forall|i: int| 0 <= i < us.len() implies '\0' <= #[trigger] us[i] <= '\u{7f}' by {
                    assert(cs[i] == b@[i] as char);
                    assert(b@[i] < 128);
                }
            }
            is_ascii_chars_encode_utf8(us);
            assert forall|i: int| 0 <= i < b@.len() implies #[trigger] encode_utf8(us)[i]
                == crate::ascii::ascii_upper(b@[i]) by {
                assert(us[i] as u8 == encode_utf8(us)[i]);
                assert(cs[i] == b@[i] as char);
                let x = b@[i];
                assert(x < 128);
                assert((ascii_upper_char(x as char)) as u8 == crate::ascii::ascii_upper(x));
            }
            assert(encode_utf8(us) =~= crate::ascii::upper(b@));
        }
    }
    copy_range(bytes, 0, bytes.len())
}

/// White space as `str::trim` and `char::is_whitespace` take it: the Unicode
/// White_Space property (tab to carriage return, space, U+0085, U+00A0, U+1680,
/// U+2000 to U+200A, U+2028, U+2029, U+202F, U+205F and U+3000).
pub open spec fn is_unicode_ws(c: char) -> bool {
    let v = c as u32;
    (9 <= v <= 13) || v == 32 || v == 0x85 || v == 0xA0 || v == 0x1680 || (0x2000 <= v <= 0x200A)
        || v == 0x2028 || v == 0x2029 || v == 0x202F || v == 0x205F || v == 0x3000
}

/// The index of the first character of `s` from `i` on that is not white space.
pub open spec fn lead_uws(s: Seq<char>, i: int) -> int
    decreases s.len() - i,
{
    if i >= s.len() || !is_unicode_ws(s[i]) {
        i
    } else {
        lead_uws(s, i + 1)
    }
}

/// The end of `s[..j]` once trailing white space is removed, stopping at `lo`.
pub open spec fn trail_uws(s: Seq<char>, lo: int, j: int) -> int
    decreases j - lo,
{
    if j <= lo || !is_unicode_ws(s[j - 1]) {
        j
    } else {
        trail_uws(s, lo, j - 1)
    }
}

/// `s` without leading and trailing white space, as `str::trim` leaves it.
pub open spec fn unicode_trim(s: Seq<char>) -> Seq<char> {
    let a = lead_uws(s, 0);
    s.subrange(a, trail_uws(s, a, s.len() as int))
}

/// The UTF-8 bytes of the text of `b` (decoded lossily), trimmed of white space.
pub open spec fn text_trim(b: Seq<u8>) -> Seq<u8> {
    encode_utf8(unicode_trim(lossy_text(b)))
}

proof fn lemma_lead_uws(s: Seq<char>, i: int)
    requires
        0 <= i <= s.len(),
    ensures
        i <= lead_uws(s, i) <= s.len(),
    decreases s.len() - i,
{
    if i < s.len() && is_unicode_ws(s[i]) {
        lemma_lead_uws(s, i + 1);
    }
}

proof fn lemma_trail_uws(s: Seq<char>, lo: int, j: int)
    requires
        0 <= lo <= j <= s.len(),
    ensures
        lo <= trail_uws(s, lo, j) <= j,
    decreases j - lo,
{
    if j > lo && is_unicode_ws(s[j - 1]) {
        lemma_trail_uws(s, lo, j - 1);
    }
}

fn is_unicode_ws_exec(c: char) -> (r: bool)
    ensures
        r == is_unicode_ws(c),
{
    let v = c as u32;
    (9 <= v && v <= 13) || v == 32 || v == 0x85 || v == 0xA0 || v == 0x1680 || (0x2000 <= v && v
        <= 0x200A) || v == 0x2028 || v == 0x2029 || v == 0x202F || v == 0x205F || v == 0x3000
}

/// The text of `b`, decoded lossily and trimmed of white space, as UTF-8 bytes.
pub fn trimmed_bytes(b: &[u8]) -> (r: Vec<u8>)
    ensures
        r@ == text_trim(b@),
{
    let s = lossy_string(b);
    let st = s.as_str();
    let n = st.unicode_len();
    proof {
        lemma_lead_uws(st@, 0);
    }
    let mut a: usize = 0;
    while a < n && is_unicode_ws_exec(st.get_char(a))
        invariant
            n == st@.len(),
            a <= n,
            lead_uws(st@, 0) == lead_uws(st@, a as int),
        decreases n - a,
    {
        a = a + 1;
    }
    proof {
        lemma_trail_uws(st@, a as int, n as int);
    }
    let mut e: usize = n;
    while e > a && is_unicode_ws_exec(st.get_char(e - 1))
        invariant
            n == st@.len(),
            a <= e <= n,
            a == lead_uws(st@, 0),
            trail_uws(st@, a as int, n as int) == trail_uws(st@, a as int, e as int),
        decreases e - a,
    {
        e = e - 1;
    }
    let t = st.substring_char(a, e);
    let bytes = t.as_bytes();
    copy_range(bytes, 0, bytes.len())
}

/// The hexadecimal digit of `n` (upper case).
pub open spec fn hex_digit(n: u8) -> &'static str {
    if n == 0 {
        "0"
    } else if n == 1 {
        "1"
    } else if n == 2 {
        "2"
    } else if n == 3 {
        "3"
    } else if n == 4 {
        "4"
    } else if n == 5 {
        "5"
    } else if n == 6 {
        "6"
    } else if n == 7 {
        "7"
    } else if n == 8 {
        "8"
    } else if n == 9 {
        "9"
    } else if n == 10 {
        "A"
    } else if n == 11 {
        "B"
    } else if n == 12 {
        "C"
    } else if n == 13 {
        "D"
    } else if n == 14 {
        "E"
    } else {
        "F"
    }
}

fn hex_digit_str(n: u8) -> (r: &'static str)
    ensures
        r@ == hex_digit(n)@,
{
    match n {
        0 => "0",
        1 => "1",
        2 => "2",
        3 => "3",
        4 => "4",
        5 => "5",
        6 => "6",
        7 => "7",
        8 => "8",
        9 => "9",
        10 => "A",
        11 => "B",
        12 => "C",
        13 => "D",
        14 => "E",
        _ => "F",
    }
}

/// Two upper-case hexadecimal digits of a byte.
pub open spec fn hex2(b: u8) -> Seq<char> {
    hex_digit(b / 16)@ + hex_digit(b % 16)@
}

/// Appends the two hexadecimal digits of `b`.
pub fn push_hex2(s: &mut String, b: u8)
    ensures
        final(s)@ == old(s)@ + hex2(b),
{
    s.append(hex_digit_str(b / 16));
    s.append(hex_digit_str(b % 16));
    assert(final(s)@ =~= old(s)@ + hex2(b));
}

/// Four upper-case hexadecimal digits of a 16-bit value.
pub open spec fn hex4(v: u16) -> Seq<char> {
    hex2((v / 256) as u8) + hex2((v % 256) as u8)
}

/// Appends the four hexadecimal digits of `v`.
pub fn push_hex4(s: &mut String, v: u16)
    ensures
        final(s)@ == old(s)@ + hex4(v),
{
    push_hex2(s, (v / 256) as u8);
    push_hex2(s, (v % 256) as u8);
    assert(final(s)@ =~= old(s)@ + hex4(v));
}

/// The lower-case hexadecimal digit of `n`.
pub open spec fn lower_hex_digit(n: u32) -> &'static str {
    if n == 10 {
        "a"
    } else if n == 11 {
        "b"
    } else if n == 12 {
        "c"
    } else if n == 13 {
        "d"
    } else if n == 14 {
        "e"
    } else if n == 15 {
        "f"
    } else {
        hex_digit(n as u8)
    }
}

fn lower_hex_digit_str(n: u32) -> (r: &'static str)
    requires
        n < 16,
    ensures
        r@ == lower_hex_digit(n)@,
{
    match n {
        10 => "a",
        11 => "b",
        12 => "c",
        13 => "d",
        14 => "e",
        15 => "f",
        _ => hex_digit_str(n as u8),
    }
}

/// The lower-case hexadecimal digits of `n`, padded with zeros to at least
/// `width` digits.
pub open spec fn lower_hex(n: u32, width: u32) -> Seq<char>
    decreases n + width,
{
    if n < 16 && width <= 1 {
        lower_hex_digit(n)@
    } else {
        lower_hex(
            n / 16,
            if width > 0 {
                (width - 1) as u32
            } else {
                0
            },
        ) + lower_hex_digit(n % 16)@
    }
}

/// Appends the lower-case hexadecimal digits of `n`, at least `width` of them.
pub fn push_lower_hex(s: &mut String, n: u32, width: u32)
    ensures
        final(s)@ == old(s)@ + lower_hex(n, width),
    decreases n + width,
{
    if n < 16 && width <= 1 {
        s.append(lower_hex_digit_str(n));
    } else {
        let w: u32 = if width > 0 {
            width - 1
        } else {
            0
        };
        push_lower_hex(s, n / 16, w);
        s.append(lower_hex_digit_str(n % 16));
        assert(final(s)@ =~= old(s)@ + lower_hex(n, width));
    }
}

/// The decimal digits of `n`, without leading zeros.
pub open spec fn decimal(n: nat) -> Seq<char>
    decreases n,
{
    if n < 10 {
        hex_digit(n as u8)@
    } else {
        decimal(n / 10) + hex_digit((n % 10) as u8)@
    }
}

/// Appends the decimal digits of `n`.
pub fn push_decimal(s: &mut String, n: u64)
    ensures
        final(s)@ == old(s)@ + decimal(n as nat),
    decreases n,
{
    if n < 10 {
        s.append(hex_digit_str(n as u8));
    } else {
        push_decimal(s, n / 10);
        s.append(hex_digit_str((n % 10) as u8));
        assert(final(s)@ =~= old(s)@ + decimal(n as nat));
    }
}

/// `prefix`, the decimal digits of `n`, then `suffix`.
pub fn numbered_message(prefix: &str, n: u64, suffix: &str) -> (r: String)
    ensures
        r@ == prefix@ + decimal(n as nat) + suffix@,
{
    let mut m = text(prefix);
    push_decimal(&mut m, n);
    m.append(suffix);
    assert(m@ =~= prefix@ + decimal(n as nat) + suffix@);
    m
}

} // verus!
