//! Byte-level text helpers: ASCII classes, case folding, searching and
//! decimal numbers as `str::parse` reads them for unsigned integers.
use vstd::prelude::*;

verus! {

pub open spec fn is_digit(b: u8) -> bool {
    48 <= b <= 57
}

pub open spec fn is_alpha(b: u8) -> bool {
    (65 <= b <= 90) || (97 <= b <= 122)
}

/// ASCII upper case of one byte; other bytes are left alone.
pub open spec fn ascii_upper(b: u8) -> u8 {
    if 97 <= b <= 122 {
        (b - 32) as u8
    } else {
        b
    }
}

/// ASCII upper case of every byte.
pub open spec fn upper(s: Seq<u8>) -> Seq<u8> {
    s.map_values(|b: u8| ascii_upper(b))
}

/// Index of the first `c` in `s` at or after `i`, or `s.len()` when there is none.
pub open spec fn find_from(s: Seq<u8>, c: u8, i: int) -> int
    decreases s.len() - i,
{
    if i >= s.len() {
        s.len() as int
    } else if s[i] == c {
        i
    } else {
        find_from(s, c, i + 1)
    }
}

/// `s` begins with `p`.
pub open spec fn starts_with(s: Seq<u8>, p: Seq<u8>) -> bool {
    p.len() <= s.len() && s.subrange(0, p.len() as int) == p
}

/// Every byte of `s` is a decimal digit.
pub open spec fn all_digits(s: Seq<u8>) -> bool {
    forall|i: int| 0 <= i < s.len() ==> is_digit(#[trigger] s[i])
}

/// The number the decimal digits `d` spell.
pub open spec fn dec_value(d: Seq<u8>) -> nat
    decreases d.len(),
{
    if d.len() == 0 {
        0
    } else {
        dec_value(d.drop_last()) * 10 + (d.last() - 48) as nat
    }
}

/// The digits of a decimal text: one leading `+` is dropped.
pub open spec fn digits_of(s: Seq<u8>) -> Seq<u8> {
    if s.len() > 0 && s[0] == 0x2B {
        s.subrange(1, s.len() as int)
    } else {
        s
    }
}

/// What parsing `s` as an unsigned number of at most `max` gives: an optional
/// `+`, then at least one digit and nothing else, and a value that fits.
pub open spec fn dec_parse(s: Seq<u8>, max: nat) -> Option<nat> {
    let d = digits_of(s);
    if d.len() == 0 || !all_digits(d) || dec_value(d) > max {
        None
    } else {
        Some(dec_value(d))
    }
}

/// A prefix of a digit string never spells more than the whole.
pub proof fn lemma_dec_value_prefix(d: Seq<u8>, i: int)
    requires
        all_digits(d),
        0 <= i <= d.len(),
    ensures
        dec_value(d.subrange(0, i)) <= dec_value(d),
    decreases d.len(),
{
    if i < d.len() {
        let e = d.drop_last();
        assert(all_digits(e)) by {
            assert forall|k: int| 0 <= k < e.len() implies is_digit(#[trigger] e[k]) by {
                assert(e[k] == d[k]);
            }
        }
        lemma_dec_value_prefix(e, i);
        assert(e.subrange(0, i) =~= d.subrange(0, i));
    } else {
        assert(d.subrange(0, i) =~= d);
    }
}

/// Index of the first `c` in `s` at or after `from`, or `s.len()`.
pub fn find_byte(s: &[u8], c: u8, from: usize) -> (r: usize)
    requires
        from <= s@.len(),
    ensures
        r as int == find_from(s@, c, from as int),
        from <= r <= s@.len(),
{
    let mut i = from;
    while i < s.len()
        invariant
            from <= i <= s@.len(),
            find_from(s@, c, from as int) == find_from(s@, c, i as int),
        decreases s@.len() - i,
    {
        if s[i] == c {
            return i;
        }
        i = i + 1;
    }
    i
}

/// ASCII upper case of `s[from..to]`.
pub fn upper_range(s: &[u8], from: usize, to: usize) -> (r: Vec<u8>)
    requires
        from <= to <= s@.len(),
    ensures
        r@ == upper(s@.subrange(from as int, to as int)),
{
    let mut out: Vec<u8> = Vec::new();
    let mut i = from;
    while i < to
        invariant
            from <= i <= to <= s@.len(),
            out@ == upper(s@.subrange(from as int, i as int)),
        decreases to - i,
    {
        let b = s[i];
        let u: u8 = if 97 <= b && b <= 122 {
            b - 32
        } else {
            b
        };
        out.push(u);
        i = i + 1;
        assert(out@ =~= upper(s@.subrange(from as int, i as int)));
    }
    out
}

/// Whether `s` begins with `p`.
pub fn has_prefix(s: &[u8], p: &[u8]) -> (r: bool)
    ensures
        r == starts_with(s@, p@),
{
    if p.len() > s.len() {
        return false;
    }
    let mut i: usize = 0;
    while i < p.len()
        invariant
            p@.len() <= s@.len(),
            i <= p@.len(),
            forall|k: int| 0 <= k < i ==> s@[k] == p@[k],
        decreases p@.len() - i,
    {
        if s[i] != p[i] {
            assert(s@.subrange(0, p@.len() as int)[i as int] != p@[i as int]);
            return false;
        }
        i = i + 1;
    }
    assert(s@.subrange(0, p@.len() as int) =~= p@);
    true
}

/// Parses `s` as an unsigned decimal of at most `max`.
pub fn parse_dec(s: &[u8], max: u64) -> (r: Option<u64>)
    ensures
        match dec_parse(s@, max as nat) {
            Some(v) => r == Some(v as u64),
            None => r is None,
        },
{
    let start: usize = if s.len() > 0 && s[0] == 0x2B {
        1
    } else {
        0
    };
    let ghost d = digits_of(s@);
    assert(d =~= s@.subrange(start as int, s@.len() as int));
    if start == s.len() {
        return None;
    }
    let mut i = start;
    while i < s.len()
        invariant
            start <= i <= s@.len(),
            d == s@.subrange(start as int, s@.len() as int),
            d == digits_of(s@),
            forall|k: int| 0 <= k < i - start ==> is_digit(#[trigger] d[k]),
        decreases s@.len() - i,
    {
        if !(48 <= s[i] && s[i] <= 57) {
            assert(d[i - start] == s@[i as int]);
            assert(!is_digit(d[i - start]));
            return None;
        }
        i = i + 1;
    }
    assert(all_digits(d));
    let mut acc: u64 = 0;
    let mut j = start;
    while j < s.len()
        invariant
            start <= j <= s@.len(),
            d == s@.subrange(start as int, s@.len() as int),
            d == digits_of(s@),
            all_digits(d),
            acc <= max,
            acc == dec_value(d.subrange(0, j - start)),
        decreases s@.len() - j,
    {
        assert(d[j - start] == s@[j as int]);
        assert(is_digit(d[j - start]));
        let dig = (s[j] - 48) as u64;
        assert(d.subrange(0, j + 1 - start).drop_last() =~= d.subrange(0, j - start));
        if dig > max {
            proof {
                lemma_dec_value_prefix(d, j + 1 - start);
            }
            return None;
        }
        if acc > (max - dig) / 10 {
            proof {
                assert(acc * 10 + dig > max) by (nonlinear_arith)
                    requires
                        acc > (max - dig) / 10,
                        dig <= max,
                ;
                lemma_dec_value_prefix(d, j + 1 - start);
            }
            return None;
        }
        proof {
            assert(acc * 10 + dig <= max) by (nonlinear_arith)
                requires
                    acc <= (max - dig) / 10,
                    dig <= max,
            ;
        }
        acc = acc * 10 + dig;
        j = j + 1;
    }
    assert(d.subrange(0, s@.len() - start) =~= d);
    Some(acc)
}

/// A printable ASCII byte: a graphic character or the space.
pub open spec fn is_print(b: u8) -> bool {
    0x20 <= b <= 0x7E
}

/// `p` occurs in `s` at position `i`.
pub open spec fn occurs_at(s: Seq<u8>, p: Seq<u8>, i: int) -> bool {
    0 <= i && i + p.len() <= s.len() && s.subrange(i, i + p.len()) == p
}

/// `p` occurs somewhere in `s`.
pub open spec fn contains(s: Seq<u8>, p: Seq<u8>) -> bool {
    exists|i: int| #[trigger] occurs_at(s, p, i)
}

/// The first position at or after `i` where `p` occurs in `s`, or `s.len()`.
pub open spec fn find_sub(s: Seq<u8>, p: Seq<u8>, i: int) -> int
    decreases s.len() - i,
{
    if i >= s.len() || i + p.len() > s.len() {
        s.len() as int
    } else if occurs_at(s, p, i) {
        i
    } else {
        find_sub(s, p, i + 1)
    }
}

pub proof fn lemma_find_sub(s: Seq<u8>, p: Seq<u8>, i: int)
    requires
        0 <= i,
    ensures
        find_sub(s, p, i) < s.len() ==> occurs_at(s, p, find_sub(s, p, i)),
        find_sub(s, p, i) >= s.len() && p.len() > 0 ==> forall|j: int| i <= j ==> !#[trigger] occurs_at(s, p, j),
        find_sub(s, p, i) >= i || find_sub(s, p, i) == s.len(),
    decreases s.len() - i,
{
    if i >= s.len() || i + p.len() > s.len() {
    } else if !occurs_at(s, p, i) {
        lemma_find_sub(s, p, i + 1);
    }
}

/// `contains` through the first occurrence.
pub proof fn lemma_contains_find(s: Seq<u8>, p: Seq<u8>)
    ensures
        contains(s, p) <==> (find_sub(s, p, 0) < s.len() || (p.len() == 0)),
{
    lemma_find_sub(s, p, 0);
    if p.len() == 0 {
        assert(s.subrange(0, 0) =~= p);
        assert(occurs_at(s, p, 0));
    } else if find_sub(s, p, 0) < s.len() {
        assert(occurs_at(s, p, find_sub(s, p, 0)));
    }
}

/// The position of the first occurrence of `p` in `s`, or `s.len()`.
pub fn find_bytes(s: &[u8], p: &[u8]) -> (r: usize)
    ensures
        r as int == find_sub(s@, p@, 0),
        r <= s@.len(),
{
    let mut i: usize = 0;
    while i < s.len() && p.len() <= s.len() - i
        invariant
            i <= s@.len(),
            find_sub(s@, p@, 0) == find_sub(s@, p@, i as int),
        decreases s@.len() - i,
    {
        if has_prefix(&s[i..s.len()], p) {
            assert(s@.subrange(i as int, s@.len() as int).subrange(0, p@.len() as int) =~= s@.subrange(
                i as int,
                i + p@.len(),
            ));
            return i;
        }
        assert(s@.subrange(i as int, s@.len() as int).subrange(0, p@.len() as int) =~= s@.subrange(
            i as int,
            i + p@.len(),
        ));
        i = i + 1;
    }
    s.len()
}

/// Whether `p` occurs in `s`.
pub fn contains_bytes(s: &[u8], p: &[u8]) -> (r: bool)
    ensures
        r == contains(s@, p@),
{
    proof {
        lemma_contains_find(s@, p@);
    }
    p.len() == 0 || find_bytes(s, p) < s.len()
}

/// The number of decimal digits in `s`.
pub open spec fn count_digits(s: Seq<u8>) -> nat
    decreases s.len(),
{
    if s.len() == 0 {
        0
    } else {
        count_digits(s.drop_last()) + if is_digit(s.last()) {
            1nat
        } else {
            0nat
        }
    }
}

/// Counts the decimal digits in `s`.
pub fn count_digit_bytes(s: &[u8]) -> (r: usize)
    ensures
        r == count_digits(s@),
{
    let mut n: usize = 0;
    let mut i: usize = 0;
    while i < s.len()
        invariant
            i <= s@.len(),
            n == count_digits(s@.subrange(0, i as int)),
            n <= i,
        decreases s@.len() - i,
    {
        assert(s@.subrange(0, i + 1).drop_last() =~= s@.subrange(0, i as int));
        if 48 <= s[i] && s[i] <= 57 {
            n = n + 1;
        }
        i = i + 1;
    }
    assert(s@.subrange(0, s@.len() as int) =~= s@);
    n
}

/// ASCII upper case of `s`.
pub fn upper_bytes(s: &[u8]) -> (r: Vec<u8>)
    ensures
        r@ == upper(s@),
{
    let r = upper_range(s, 0, s.len());
    assert(s@.subrange(0, s@.len() as int) =~= s@);
    r
}

/// The first match lies at or after the start of the search.
pub proof fn lemma_find_from_ge(s: Seq<u8>, c: u8, i: int)
    requires
        0 <= i <= s.len(),
    ensures
        i <= find_from(s, c, i) <= s.len(),
        find_from(s, c, i) < s.len() ==> s[find_from(s, c, i)] == c,
    decreases s.len() - i,
{
    if i < s.len() && s[i] != c {
        lemma_find_from_ge(s, c, i + 1);
    }
}

/// The end of the run of printable bytes of `s` that starts at `i`.
pub open spec fn run_end(s: Seq<u8>, i: int) -> int
    decreases s.len() - i,
{
    if i >= s.len() || !is_print(s[i]) {
        i
    } else {
        run_end(s, i + 1)
    }
}

pub proof fn lemma_run_end(s: Seq<u8>, i: int)
    requires
        0 <= i <= s.len(),
    ensures
        i <= run_end(s, i) <= s.len(),
        i < s.len() && is_print(s[i]) ==> run_end(s, i) > i,
        forall|k: int| i <= k < run_end(s, i) ==> is_print(#[trigger] s[k]),
    decreases s.len() - i,
{
    if i < s.len() && is_print(s[i]) {
        lemma_run_end(s, i + 1);
    }
}

/// The end of the run of printable bytes that starts at `i`.
pub fn run_end_exec(s: &[u8], i: usize) -> (r: usize)
    requires
        i <= s@.len(),
    ensures
        r as int == run_end(s@, i as int),
        i <= r <= s@.len(),
{
    proof {
        lemma_run_end(s@, i as int);
    }
    let mut j = i;
    while j < s.len() && 0x20 <= s[j] && s[j] <= 0x7E
        invariant
            i <= j <= s@.len(),
            run_end(s@, i as int) == run_end(s@, j as int),
        decreases s@.len() - j,
    {
        j = j + 1;
    }
    j
}

} // verus!
