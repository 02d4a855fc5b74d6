//! Reading PLC facts out of SZL answers: status, order code, CPU and CP
//! identification, module and SZL lists, protection.
use vstd::prelude::*;
use vstd::utf8::encode_utf8;
use crate::ascii::{
    contains, contains_bytes, count_digit_bytes, count_digits, find_byte, find_from, has_prefix,
    is_digit, is_print, lemma_find_from_ge, lemma_run_end, run_end, run_end_exec, starts_with,
    upper, upper_bytes, find_bytes, find_sub,
};
use crate::error::Error;
use crate::text::{
    lossy_string, text_trim, trim_bounds, trim_ws, trimmed_bytes, upper_text, upper_text_bytes, lossy_text,
};
use crate::types::{CpInfo, CpuInfo, ModuleEntry, OrderCode, PlcStatus, Protection, Protocol};
use crate::wire::{be16_at, be32_at, copy_range, read_be16, read_be32};

verus! {

/// What the data part of an SZL answer gives after the echoed parameters: the
/// SZL block when the return code is success, nothing when the envelope is short
/// or reports an error; an answer shorter than its parameters is refused.
pub open spec fn szl_payload_spec(param_len: u16, body: Seq<u8>) -> Result<Seq<u8>, Error> {
    if body.len() < param_len {
        Err(Error::UnexpectedResponse)
    } else {
        let rest = body.subrange(param_len as int, body.len() as int);
        if rest.len() < 4 || rest[0] != 0xFF {
            Ok(Seq::empty())
        } else {
            Ok(rest.subrange(4, rest.len() as int))
        }
    }
}

/// Extracts the SZL block from an answer's body.
pub fn szl_payload(param_len: u16, body: &[u8]) -> (r: Result<Vec<u8>, Error>)
    ensures
        match szl_payload_spec(param_len, body@) {
            Ok(p) => (r matches Ok(v) && v@ == p),
            Err(e) => r == Err::<Vec<u8>, Error>(e),
        },
{
    let pl = param_len as usize;
    if body.len() < pl {
        return Err(Error::UnexpectedResponse);
    }
    let rest = &body[pl..body.len()];
    if rest.len() < 4 || rest[0] != 0xFF {
        return Ok(Vec::new());
    }
    Ok(copy_range(rest, 4, rest.len()))
}

/// The PLC status an SZL 0x0424 block reports: byte 11 is 0x00 unknown, 0x04
/// stop, 0x08 run; any other byte counts as stop; a short block is unknown.
pub open spec fn plc_status_spec(p: Seq<u8>) -> PlcStatus {
    if p.len() < 12 || p[11] == 0x00 {
        PlcStatus::Unknown
    } else if p[11] == 0x08 {
        PlcStatus::Run
    } else {
        PlcStatus::Stop
    }
}

/// Reads the PLC status from an SZL 0x0424 block.
pub fn plc_status_from_szl(p: &[u8]) -> (r: PlcStatus)
    ensures
        r == plc_status_spec(p@),
{
    if p.len() < 12 {
        return PlcStatus::Unknown;
    }
    match p[11] {
        0x00 => PlcStatus::Unknown,
        0x04 => PlcStatus::Stop,
        0x08 => PlcStatus::Run,
        _ => PlcStatus::Stop,
    }
}

/// `s` without leading and trailing ASCII white space.
pub fn trim_slice(s: &[u8]) -> (r: Vec<u8>)
    ensures
        r@ == trim_ws(s@),
{
    let (a, b) = trim_bounds(s);
    copy_range(s, a, b)
}

/// The text of the SZL entry at `pos` of `el` bytes: the bytes after its 2-byte
/// index up to the first zero byte, as text trimmed of white space (UTF-8).
pub open spec fn entry_text(p: Seq<u8>, pos: int, el: int) -> Seq<u8> {
    let raw = p.subrange(pos + 2, pos + el);
    text_trim(raw.subrange(0, find_from(raw, 0, 0)))
}

fn entry_text_bytes(p: &[u8], pos: usize, el: usize) -> (r: Vec<u8>)
    requires
        2 <= el,
        pos + el <= p.len(),
    ensures
        r@ == entry_text(p@, pos as int, el as int),
{
    let raw = &p[pos + 2..pos + el];
    let z = find_byte(raw, 0, 0);
    trimmed_bytes(&raw[0..z])
}

/// Printable ASCII runs of `d` from `i` on, each trimmed and kept when at least
/// `min` bytes long, until `max` are kept.
pub open spec fn scan_runs(d: Seq<u8>, i: int, max: nat, min: nat, acc: Seq<Seq<u8>>) -> Seq<Seq<u8>>
    decreases d.len() - i,
{
    if i < 0 || i >= d.len() || acc.len() >= max {
        acc
    } else if !is_print(d[i]) {
        scan_runs(d, i + 1, max, min, acc)
    } else {
        proof {
            lemma_run_end(d, i);
        }
        let e = run_end(d, i);
        let t = trim_ws(d.subrange(i, e));
        scan_runs(d, e, max, min, if t.len() >= min { acc.push(t) } else { acc })
    }
}

pub open spec fn byte_views(v: Seq<Vec<u8>>) -> Seq<Seq<u8>> {
    v.map_values(|x: Vec<u8>| x@)
}

fn scan_runs_exec(d: &[u8], max: usize, min: usize) -> (r: Vec<Vec<u8>>)
    ensures
        byte_views(r@) == scan_runs(d@, 0, max as nat, min as nat, Seq::empty()),
{
    let mut out: Vec<Vec<u8>> = Vec::new();
    let mut i: usize = 0;
    assert(byte_views(out@) =~= Seq::<Seq<u8>>::empty());
    while i < d.len() && out.len() < max
        invariant
            i <= d@.len(),
            scan_runs(d@, 0, max as nat, min as nat, Seq::empty()) == scan_runs(
                d@,
                i as int,
                max as nat,
                min as nat,
                byte_views(out@),
            ),
        decreases d@.len() - i,
    {
        if !(0x20 <= d[i] && d[i] <= 0x7E) {
            i = i + 1;
        } else {
            let e = run_end_exec(d, i);
            proof {
                lemma_run_end(d@, i as int);
            }
            let t = trim_slice(&d[i..e]);
            if t.len() >= min {
                let ghost before = out@;
                out.push(t);
                assert(byte_views(out@) =~= byte_views(before).push(t@));
            }
            i = e;
        }
    }
    out
}

/// Scans `data` for runs of printable ASCII and returns up to `max_count` of
/// them, trimmed, that are at least `min_len` bytes long.
pub fn scan_ascii_fields(data: &[u8], max_count: usize, min_len: usize) -> (r: Vec<String>)
    ensures
        r@.len() == scan_runs(data@, 0, max_count as nat, min_len as nat, Seq::empty()).len(),
        forall|i: int|
            0 <= i < r@.len() ==> (#[trigger] r@[i])@ == lossy_text(
                scan_runs(data@, 0, max_count as nat, min_len as nat, Seq::empty())[i],
            ),
{
    let runs = scan_runs_exec(data, max_count, min_len);
    let mut out: Vec<String> = Vec::new();
    let mut k: usize = 0;
    while k < runs.len()
        invariant
            k <= runs@.len(),
            out@.len() == k,
            forall|i: int| 0 <= i < k ==> (#[trigger] out@[i])@ == lossy_text(runs@[i]@),
        decreases runs@.len() - k,
    {
        out.push(lossy_string(runs[k].as_slice()));
        k = k + 1;
    }
    out
}

pub open spec fn kw_6es() -> Seq<u8> {
    seq![0x36u8, 0x45, 0x53]
}

pub open spec fn kw_6av() -> Seq<u8> {
    seq![0x36u8, 0x41, 0x56]
}

pub open spec fn kw_6gk() -> Seq<u8> {
    seq![0x36u8, 0x47, 0x4B]
}

/// An order number: it starts (in any case) with 6ES, 6AV or 6GK and has at
/// least ten bytes.
pub open spec fn looks_like_order_code(t: Seq<u8>) -> bool {
    (starts_with(upper(t), kw_6es()) || starts_with(upper(t), kw_6av()) || starts_with(
        upper(t),
        kw_6gk(),
    )) && t.len() >= 10
}

/// The first run from `k` on that looks like an order number; empty if none.
pub open spec fn first_order_run(runs: Seq<Seq<u8>>, k: int) -> Seq<u8>
    decreases runs.len() - k,
{
    if k < 0 || k >= runs.len() {
        Seq::empty()
    } else if looks_like_order_code(runs[k]) {
        runs[k]
    } else {
        first_order_run(runs, k + 1)
    }
}

/// The first entry with index 1 and a non-empty text, among at most `left`
/// entries of `el` bytes from `pos` on that the block holds in full.
pub open spec fn order_entry_scan(p: Seq<u8>, el: int, left: int, pos: int) -> Option<Seq<u8>>
    decreases left,
{
    if left <= 0 || pos < 0 || p.len() - pos < el {
        None
    } else if be16_at(p, pos) == 1 && entry_text(p, pos, el).len() > 0 {
        Some(entry_text(p, pos, el))
    } else {
        order_entry_scan(p, el, left - 1, pos + el)
    }
}

/// What an SZL 0x0011 block gives: the order number's bytes and the three
/// version bytes (the block's last three). The number comes from the entry
/// with index 1 when the block is of SZL 0x0011 or 0x001C, else from the
/// first printable run that looks like one.
pub open spec fn order_code_spec(p: Seq<u8>) -> Result<(Seq<u8>, u8, u8, u8), Error> {
    if p.len() < 8 {
        Err(Error::UnexpectedResponse)
    } else {
        let n = p.len() as int;
        let id = be16_at(p, 0);
        let el = be16_at(p, 4) as int;
        let cnt = be16_at(p, 6) as int;
        let structured = if (id == 0x0011 || id == 0x001C) && el >= 4 && cnt > 0 {
            order_entry_scan(p, el, cnt, 8)
        } else {
            None
        };
        let code = match structured {
            Some(c) => c,
            None => first_order_run(scan_runs(p, 0, 10, 4, Seq::empty()), 0),
        };
        Ok((code, p[n - 3], p[n - 2], p[n - 1]))
    }
}

fn order_entry_scan_exec(p: &[u8], el: usize, cnt: usize) -> (r: Option<Vec<u8>>)
    requires
        p@.len() >= 8,
        el >= 4,
    ensures
        match order_entry_scan(p@, el as int, cnt as int, 8) {
            Some(c) => (r matches Some(v) && v@ == c),
            None => r is None,
        },
{
    let mut pos: usize = 8;
    let mut left: usize = cnt;
    while left > 0 && p.len() - pos >= el
        invariant
            8 <= pos <= p@.len(),
            el >= 4,
            order_entry_scan(p@, el as int, cnt as int, 8) == order_entry_scan(
                p@,
                el as int,
                left as int,
                pos as int,
            ),
        decreases left,
    {
        let t = entry_text_bytes(p, pos, el);
        if read_be16(p, pos) == 1 && t.len() > 0 {
            return Some(t);
        }
        left = left - 1;
        pos = pos + el;
    }
    None
}

fn first_order_run_exec(runs: &Vec<Vec<u8>>) -> (r: Vec<u8>)
    ensures
        r@ == first_order_run(byte_views(runs@), 0),
{
    let mut k: usize = 0;
    while k < runs.len()
        invariant
            k <= runs@.len(),
            first_order_run(byte_views(runs@), 0) == first_order_run(byte_views(runs@), k as int),
        decreases runs@.len() - k,
    {
        let t = runs[k].as_slice();
        let u = upper_bytes(t);
        if (has_prefix(u.as_slice(), &[0x36, 0x45, 0x53]) || has_prefix(u.as_slice(), &[0x36, 0x41, 0x56])
            || has_prefix(u.as_slice(), &[0x36, 0x47, 0x4B])) && t.len() >= 10 {
            assert(byte_views(runs@)[k as int] == t@);
            return copy_range(t, 0, t.len());
        }
        k = k + 1;
    }
    Vec::new()
}

/// Reads the order number and firmware version from an SZL 0x0011 block.
pub fn order_code_from_szl(p: &[u8]) -> (r: Result<OrderCode, Error>)
    ensures
        match order_code_spec(p@) {
            Ok((c, v1, v2, v3)) => (r matches Ok(o) && o.code@ == lossy_text(c) && o.v1 == v1 && o.v2
                == v2 && o.v3 == v3),
            Err(e) => r == Err::<OrderCode, Error>(e),
        },
{
    if p.len() < 8 {
        return Err(Error::UnexpectedResponse);
    }
    let n = p.len();
    let (v1, v2, v3) = (p[n - 3], p[n - 2], p[n - 1]);
    let id = read_be16(p, 0);
    let el = read_be16(p, 4) as usize;
    let cnt = read_be16(p, 6) as usize;
    let structured = if (id == 0x0011 || id == 0x001C) && el >= 4 && cnt > 0 {
        order_entry_scan_exec(p, el, cnt)
    } else {
        None
    };
    let code = match structured {
        Some(c) => c,
        None => {
            let runs = scan_runs_exec(p, 10, 4);
            first_order_run_exec(&runs)
        },
    };
    Ok(OrderCode { code: lossy_string(code.as_slice()), v1, v2, v3 })
}

/// The five identification texts of a CPU, as bytes.
pub struct CpuText {
    pub module_type: Seq<u8>,
    pub serial_number: Seq<u8>,
    pub as_name: Seq<u8>,
    pub copyright: Seq<u8>,
    pub module_name: Seq<u8>,
}

pub open spec fn no_text() -> CpuText {
    CpuText {
        module_type: Seq::empty(),
        serial_number: Seq::empty(),
        as_name: Seq::empty(),
        copyright: Seq::empty(),
        module_name: Seq::empty(),
    }
}

/// The identification texts while they are being collected.
pub struct CpuBytes {
    pub module_type: Vec<u8>,
    pub serial_number: Vec<u8>,
    pub as_name: Vec<u8>,
    pub copyright: Vec<u8>,
    pub module_name: Vec<u8>,
}

impl CpuBytes {
    pub open spec fn text(&self) -> CpuText {
        CpuText {
            module_type: self.module_type@,
            serial_number: self.serial_number@,
            as_name: self.as_name@,
            copyright: self.copyright@,
            module_name: self.module_name@,
        }
    }

    fn new() -> (r: CpuBytes)
        ensures
            r.text() == no_text(),
    {
        let r = CpuBytes {
            module_type: Vec::new(),
            serial_number: Vec::new(),
            as_name: Vec::new(),
            copyright: Vec::new(),
            module_name: Vec::new(),
        };
        assert(r.text() =~~= no_text());
        r
    }
}

/// The first non-empty text among the entries with index `idx`, of at most
/// `left` entries from `pos` on that the block holds in full; empty if none.
pub open spec fn first_entry(p: Seq<u8>, el: int, left: int, pos: int, idx: u16) -> Seq<u8>
    decreases left,
{
    if left <= 0 || pos < 0 || p.len() - pos < el {
        Seq::empty()
    } else if be16_at(p, pos) == idx && entry_text(p, pos, el).len() > 0 {
        entry_text(p, pos, el)
    } else {
        first_entry(p, el, left - 1, pos + el, idx)
    }
}

/// The texts of an SZL 0x001C block's entries: index 1 plant name, 2 module
/// type (unless 7 gives one), 3 module name (else the plant name), 4 copyright,
/// 5 serial number; for each, the first non-empty text.
pub open spec fn structured_cpu(p: Seq<u8>, el: int, cnt: int) -> CpuText {
    let canon = first_entry(p, el, cnt, 8, 7);
    let mt = first_entry(p, el, cnt, 8, 2);
    let asn = first_entry(p, el, cnt, 8, 1);
    let mn = first_entry(p, el, cnt, 8, 3);
    CpuText {
        module_type: if canon.len() > 0 {
            canon
        } else {
            mt
        },
        serial_number: first_entry(p, el, cnt, 8, 5),
        as_name: asn,
        copyright: first_entry(p, el, cnt, 8, 4),
        module_name: if mn.len() == 0 && asn.len() > 0 {
            asn
        } else {
            mn
        },
    }
}

fn first_entry_exec(p: &[u8], el: usize, cnt: usize, idx: u16) -> (r: Vec<u8>)
    requires
        p@.len() >= 8,
        el >= 4,
    ensures
        r@ == first_entry(p@, el as int, cnt as int, 8, idx),
{
    let mut pos: usize = 8;
    let mut left: usize = cnt;
    while left > 0 && p.len() - pos >= el
        invariant
            8 <= pos <= p@.len(),
            el >= 4,
            first_entry(p@, el as int, cnt as int, 8, idx) == first_entry(
                p@,
                el as int,
                left as int,
                pos as int,
                idx,
            ),
        decreases left,
    {
        let t = entry_text_bytes(p, pos, el);
        if read_be16(p, pos) == idx && t.len() > 0 {
            return t;
        }
        left = left - 1;
        pos = pos + el;
    }
    Vec::new()
}

fn structured_cpu_exec(p: &[u8], el: usize, cnt: usize) -> (r: CpuBytes)
    requires
        p@.len() >= 8,
        el >= 4,
    ensures
        r.text() == structured_cpu(p@, el as int, cnt as int),
{
    let canon = first_entry_exec(p, el, cnt, 7);
    let mt = first_entry_exec(p, el, cnt, 2);
    let asn = first_entry_exec(p, el, cnt, 1);
    let mn = first_entry_exec(p, el, cnt, 3);
    let module_type = if canon.len() > 0 {
        canon
    } else {
        mt
    };
    let module_name = if mn.len() == 0 && asn.len() > 0 {
        copy_range(asn.as_slice(), 0, asn.len())
    } else {
        mn
    };
    let r = CpuBytes {
        module_type,
        serial_number: first_entry_exec(p, el, cnt, 5),
        as_name: asn,
        copyright: first_entry_exec(p, el, cnt, 4),
        module_name,
    };
    assert(r.text().module_name =~= structured_cpu(p@, el as int, cnt as int).module_name);
    r
}

pub open spec fn kw_boot() -> Seq<u8> {
    seq![0x42u8, 0x4F, 0x4F, 0x54]
}

pub open spec fn kw_pb() -> Seq<u8> {
    seq![0x50u8, 0x20, 0x42]
}

pub open spec fn kw_hboot() -> Seq<u8> {
    seq![0x48u8, 0x42, 0x4F, 0x4F, 0x54]
}

/// A firmware label rather than an identification: in upper case (as
/// `str::to_uppercase` gives it) it mentions BOOT or starts with "P B".
pub open spec fn is_boot_label(v: Seq<u8>) -> bool {
    is_boot_upper(upper_text(v))
}

/// Upper-case text that names a firmware label: it mentions BOOT or starts
/// with "P B".
pub open spec fn is_boot_upper(u: Seq<u8>) -> bool {
    contains(u, kw_boot()) || starts_with(u, kw_pb())
}

/// Whether upper-case text names a firmware label.
pub fn boot_upper(u: &[u8]) -> (r: bool)
    ensures
        r == is_boot_upper(u@),
{
    contains_bytes(u, &[0x42, 0x4F, 0x4F, 0x54]) || has_prefix(u, &[0x50, 0x20, 0x42])
}

fn is_boot_label_exec(v: &[u8]) -> (r: bool)
    ensures
        r == is_boot_label(v@),
{
    let u = upper_text_bytes(v);
    boot_upper(u.as_slice())
}

/// Applies one tagged sub-record: 1 module type (unless it is an order number
/// starting 6ES), 5 plant name, 6 serial number, 7 module type, 8 module name;
/// each only while still empty, and never from an empty text or a firmware label.
pub open spec fn apply_sub(st: CpuText, tag: u8, v: Seq<u8>) -> CpuText {
    if v.len() == 0 || is_boot_label(v) {
        st
    } else if tag == 1 {
        if !starts_with(v, kw_6es()) && st.module_type.len() == 0 {
            CpuText { module_type: v, ..st }
        } else {
            st
        }
    } else if tag == 5 {
        if st.as_name.len() == 0 {
            CpuText { as_name: v, ..st }
        } else {
            st
        }
    } else if tag == 6 {
        if st.serial_number.len() == 0 {
            CpuText { serial_number: v, ..st }
        } else {
            st
        }
    } else if tag == 7 {
        if st.module_type.len() == 0 {
            CpuText { module_type: v, ..st }
        } else {
            st
        }
    } else if tag == 8 {
        if st.module_name.len() == 0 {
            CpuText { module_name: v, ..st }
        } else {
            st
        }
    } else {
        st
    }
}

/// The tagged sub-records `[00 tag text]` of `b` from `i` on, tags 1 to 8, each
/// text running to the next zero byte.
pub open spec fn sub_records(b: Seq<u8>, i: int, st: CpuText) -> CpuText
    decreases b.len() - i,
{
    if i < 0 || i + 2 >= b.len() {
        st
    } else if b[i] == 0 && 1 <= b[i + 1] <= 8 {
        proof {
            lemma_find_from_ge(b, 0, i + 2);
        }
        let end = find_from(b, 0, i + 2);
        sub_records(b, end, apply_sub(st, b[i + 1], text_trim(b.subrange(i + 2, end))))
    } else {
        sub_records(b, i + 1, st)
    }
}

/// The first printable run of `b` from `i` on that, trimmed, has at least
/// three bytes and is a firmware label; empty if none.
pub open spec fn boot_label(b: Seq<u8>, i: int) -> Seq<u8>
    decreases b.len() - i,
{
    if i < 0 || i >= b.len() {
        Seq::empty()
    } else if !is_print(b[i]) {
        boot_label(b, i + 1)
    } else {
        proof {
            lemma_run_end(b, i);
        }
        let v = trim_ws(b.subrange(i, run_end(b, i)));
        if v.len() >= 3 && is_boot_label(v) {
            v
        } else {
            boot_label(b, run_end(b, i))
        }
    }
}

/// The texts of the tagged sub-record format; the copyright is the first
/// firmware label found among the printable runs.
pub open spec fn sub_record_text(b: Seq<u8>) -> CpuText {
    let st = sub_records(b, 0, no_text());
    if st.copyright.len() == 0 {
        CpuText { copyright: boot_label(b, 0), ..st }
    } else {
        st
    }
}

fn apply_sub_exec(st: &mut CpuBytes, tag: u8, v: Vec<u8>)
    ensures
        final(st).text() == apply_sub(old(st).text(), tag, v@),
{
    if v.len() == 0 || is_boot_label_exec(v.as_slice()) {
        return;
    }
    if tag == 1 {
        if !has_prefix(v.as_slice(), &[0x36, 0x45, 0x53]) && st.module_type.len() == 0 {
            st.module_type = v;
        }
    } else if tag == 5 {
        if st.as_name.len() == 0 {
            st.as_name = v;
        }
    } else if tag == 6 {
        if st.serial_number.len() == 0 {
            st.serial_number = v;
        }
    } else if tag == 7 {
        if st.module_type.len() == 0 {
            st.module_type = v;
        }
    } else if tag == 8 {
        if st.module_name.len() == 0 {
            st.module_name = v;
        }
    }
}

fn boot_label_exec(b: &[u8]) -> (r: Vec<u8>)
    ensures
        r@ == boot_label(b@, 0),
{
    let mut i: usize = 0;
    while i < b.len()
        invariant
            i <= b@.len(),
            boot_label(b@, 0) == boot_label(b@, i as int),
        decreases b@.len() - i,
    {
        if !(0x20 <= b[i] && b[i] <= 0x7E) {
            i = i + 1;
        } else {
            let e = run_end_exec(b, i);
            proof {
                lemma_run_end(b@, i as int);
            }
            let v = trim_slice(&b[i..e]);
            if v.len() >= 3 && is_boot_label_exec(v.as_slice()) {
                return v;
            }
            i = e;
        }
    }
    Vec::new()
}

fn sub_record_exec(b: &[u8]) -> (r: CpuBytes)
    ensures
        r.text() == sub_record_text(b@),
{
    let mut st = CpuBytes::new();
    let mut i: usize = 0;
    while i < b.len() && b.len() - i > 2
        invariant
            i <= b@.len(),
            sub_records(b@, 0, no_text()) == sub_records(b@, i as int, st.text()),
        decreases b@.len() - i,
    {
        if b[i] == 0 && 1 <= b[i + 1] && b[i + 1] <= 8 {
            let end = find_byte(b, 0, i + 2);
            proof {
                lemma_find_from_ge(b@, 0, i + 2);
            }
            let v = trimmed_bytes(&b[i + 2..end]);
            apply_sub_exec(&mut st, b[i + 1], v);
            i = end;
        } else {
            i = i + 1;
        }
    }
    if st.copyright.len() == 0 {
        st.copyright = boot_label_exec(b);
    }
    st
}

/// Reads the tagged sub-record format of SZL 0x001C: module type, serial
/// number, plant name, copyright and module name.
pub fn parse_sub_record_fields(b: &[u8]) -> (r: (String, String, String, String, String))
    ensures
        r.0@ == lossy_text(sub_record_text(b@).module_type),
        r.1@ == lossy_text(sub_record_text(b@).serial_number),
        r.2@ == lossy_text(sub_record_text(b@).as_name),
        r.3@ == lossy_text(sub_record_text(b@).copyright),
        r.4@ == lossy_text(sub_record_text(b@).module_name),
{
    let st = sub_record_exec(b);
    (
        lossy_string(st.module_type.as_slice()),
        lossy_string(st.serial_number.as_slice()),
        lossy_string(st.as_name.as_slice()),
        lossy_string(st.copyright.as_slice()),
        lossy_string(st.module_name.as_slice()),
    )
}

pub open spec fn kw_dash() -> Seq<u8> {
    seq![0x2Du8]
}

pub open spec fn kw_6es7() -> Seq<u8> {
    seq![0x36u8, 0x45, 0x53, 0x37]
}

pub open spec fn kw_cpu() -> Seq<u8> {
    seq![0x43u8, 0x50, 0x55]
}

pub open spec fn kw_pn() -> Seq<u8> {
    seq![0x50u8, 0x4E]
}

pub open spec fn kw_mc() -> Seq<u8> {
    seq![0x4Du8, 0x43, 0x5F]
}

/// Files a printable run `v` that starts at `start` of `d`, by the tag byte in
/// front of it (`00 tag`) or by how it looks: firmware labels are dropped; 7
/// module type, 8 module name, 5 plant name, 6 copyright, 4 serial number;
/// untagged, a text with a dash and four digits that is no 6ES7 order number is
/// a serial number, one naming CPU and PN or any other of eight bytes or more
/// (without MC_) is a module type. Each field is filled only while empty.
pub open spec fn classify_run(d: Seq<u8>, start: int, v: Seq<u8>, st: CpuText) -> CpuText {
    let su = upper(v);
    let tagged = start >= 2 && d[start - 2] == 0;
    let tag = d[start - 1];
    if contains(su, kw_boot()) || starts_with(su, kw_pb()) || starts_with(su, kw_hboot()) {
        st
    } else if tagged && tag == 7 && st.module_type.len() == 0 {
        CpuText { module_type: v, ..st }
    } else if tagged && tag == 8 && st.module_name.len() == 0 {
        CpuText { module_name: v, ..st }
    } else if tagged && tag == 5 && st.as_name.len() == 0 {
        CpuText { as_name: v, ..st }
    } else if tagged && tag == 6 && st.copyright.len() == 0 {
        CpuText { copyright: v, ..st }
    } else if tagged && tag == 4 && st.serial_number.len() == 0 {
        CpuText { serial_number: v, ..st }
    } else if contains(v, kw_dash()) && count_digits(v) >= 4 && !starts_with(v, kw_6es7())
        && st.serial_number.len() == 0 {
        CpuText { serial_number: v, ..st }
    } else if contains(su, kw_cpu()) && contains(su, kw_pn()) && st.module_type.len() == 0 {
        CpuText { module_type: v, ..st }
    } else if st.module_type.len() == 0 && v.len() >= 8 && !contains(su, kw_mc()) {
        CpuText { module_type: v, ..st }
    } else {
        st
    }
}

/// The texts found by filing every printable run of `d` from `i` on that,
/// trimmed, has at least three bytes.
pub open spec fn last_resort(d: Seq<u8>, i: int, st: CpuText) -> CpuText
    decreases d.len() - i,
{
    if i < 0 || i >= d.len() {
        st
    } else if !is_print(d[i]) {
        last_resort(d, i + 1, st)
    } else {
        proof {
            lemma_run_end(d, i);
        }
        let e = run_end(d, i);
        let v = trim_ws(d.subrange(i, e));
        last_resort(d, e, if v.len() >= 3 { classify_run(d, i, v, st) } else { st })
    }
}

fn classify_run_exec(d: &[u8], start: usize, v: Vec<u8>, st: &mut CpuBytes)
    requires
        start < d@.len(),
    ensures
        final(st).text() == classify_run(d@, start as int, v@, old(st).text()),
{
    let su = upper_bytes(v.as_slice());
    let tagged = start >= 2 && d[start - 2] == 0;
    let tag: u8 = if start >= 1 {
        d[start - 1]
    } else {
        0
    };
    assert(tagged ==> tag == d@[start - 1]);
    let c_boot = contains_bytes(su.as_slice(), &[0x42, 0x4F, 0x4F, 0x54]);
    let c_pb = has_prefix(su.as_slice(), &[0x50, 0x20, 0x42]);
    let c_hb = has_prefix(su.as_slice(), &[0x48, 0x42, 0x4F, 0x4F, 0x54]);
    let dash: [u8; 1] = [0x2D];
    assert(dash@ =~= kw_dash());
    let c_dash = contains_bytes(v.as_slice(), &dash);
    let n_dig = count_digit_bytes(v.as_slice());
    let c_6es7 = has_prefix(v.as_slice(), &[0x36, 0x45, 0x53, 0x37]);
    let c_cpu = contains_bytes(su.as_slice(), &[0x43, 0x50, 0x55]);
    let c_pn = contains_bytes(su.as_slice(), &[0x50, 0x4E]);
    let c_mc = contains_bytes(su.as_slice(), &[0x4D, 0x43, 0x5F]);
    assert(c_boot == contains(upper(v@), kw_boot()));
    assert(c_pb == starts_with(upper(v@), kw_pb()));
    assert(c_hb == starts_with(upper(v@), kw_hboot()));
    assert(c_dash == contains(v@, kw_dash()));
    assert(c_6es7 == starts_with(v@, kw_6es7()));
    assert(c_cpu == contains(upper(v@), kw_cpu()));
    assert(c_pn == contains(upper(v@), kw_pn()));
    assert(c_mc == contains(upper(v@), kw_mc()));
    if c_boot || c_pb || c_hb {
        return;
    }
    if tagged && tag == 7 && st.module_type.len() == 0 {
        st.module_type = v;
    } else if tagged && tag == 8 && st.module_name.len() == 0 {
        st.module_name = v;
    } else if tagged && tag == 5 && st.as_name.len() == 0 {
        st.as_name = v;
    } else if tagged && tag == 6 && st.copyright.len() == 0 {
        st.copyright = v;
    } else if tagged && tag == 4 && st.serial_number.len() == 0 {
        st.serial_number = v;
    } else if c_dash && n_dig >= 4 && !c_6es7 && st.serial_number.len() == 0 {
        st.serial_number = v;
    } else if c_cpu && c_pn && st.module_type.len() == 0 {
        st.module_type = v;
    } else if st.module_type.len() == 0 && v.len() >= 8 && !c_mc {
        st.module_type = v;
    }
}

fn last_resort_exec(d: &[u8]) -> (r: CpuBytes)
    ensures
        r.text() == last_resort(d@, 0, no_text()),
{
    let mut st = CpuBytes::new();
    let mut i: usize = 0;
    while i < d.len()
        invariant
            i <= d@.len(),
            last_resort(d@, 0, no_text()) == last_resort(d@, i as int, st.text()),
        decreases d@.len() - i,
    {
        if !(0x20 <= d[i] && d[i] <= 0x7E) {
            i = i + 1;
        } else {
            let e = run_end_exec(d, i);
            proof {
                lemma_run_end(d@, i as int);
            }
            let v = trim_slice(&d[i..e]);
            if v.len() >= 3 {
                classify_run_exec(d, i, v, &mut st);
            }
            i = e;
        }
    }
    st
}

pub open spec fn kw_1500() -> Seq<u8> {
    seq![0x31u8, 0x35, 0x30, 0x30]
}

pub open spec fn kw_1200() -> Seq<u8> {
    seq![0x31u8, 0x32, 0x30, 0x30]
}

pub open spec fn kw_et_200sp() -> Seq<u8> {
    seq![0x45u8, 0x54, 0x20, 0x32, 0x30, 0x30, 0x53, 0x50]
}

pub open spec fn kw_et200sp() -> Seq<u8> {
    seq![0x45u8, 0x54, 0x32, 0x30, 0x30, 0x53, 0x50]
}

/// The first digit of `s` at or after `i`, or `s.len()`.
pub open spec fn first_digit(s: Seq<u8>, i: int) -> int
    decreases s.len() - i,
{
    if i < 0 || i >= s.len() {
        s.len() as int
    } else if is_digit(s[i]) {
        i
    } else {
        first_digit(s, i + 1)
    }
}

/// The model number after the first "CPU" in `u` starts with 12 or 15: the
/// first two digits after it are adjacent and read 12 or 15.
pub open spec fn cpu_model_12_or_15(u: Seq<u8>) -> bool {
    let rest = u.subrange(find_sub(u, kw_cpu(), 0) + 3, u.len() as int);
    let k = first_digit(rest, 0);
    k + 1 < rest.len() && is_digit(rest[k + 1]) && rest[k] == 0x31 && (rest[k + 1] == 0x32 || rest[k
        + 1] == 0x35)
}

/// The protocol a module type name points to: S7CommPlus for S7-1200, S7-1500
/// and ET 200SP CPUs (named so, or as a CPU whose number starts 12 or 15),
/// classic S7 otherwise; the name is compared in upper case, as
/// `str::to_uppercase` gives it.
pub open spec fn protocol_spec(mt: Seq<u8>) -> Protocol {
    upper_protocol(upper_text(mt))
}

/// The protocol an upper-case module type name points to.
pub open spec fn upper_protocol(u: Seq<u8>) -> Protocol {
    if contains(u, kw_1500()) || contains(u, kw_1200()) || contains(u, kw_et_200sp()) || contains(
        u,
        kw_et200sp(),
    ) || (contains(u, kw_cpu()) && cpu_model_12_or_15(u)) {
        Protocol::S7Plus
    } else {
        Protocol::S7
    }
}

/// The protocol of a CPU, from its module type name.
pub fn detect_protocol(payload: &[u8], module_type: &str) -> (r: Protocol)
    ensures
        r == protocol_spec(encode_utf8(module_type@)),
{
    let u = upper_text_bytes(module_type.as_bytes());
    protocol_of_upper(u.as_slice())
}

/// The protocol an upper-case module type name points to.
pub fn protocol_of_upper(u: &[u8]) -> (r: Protocol)
    ensures
        r == upper_protocol(u@),
{
    let plus = contains_bytes(u, &[0x31, 0x35, 0x30, 0x30]) || contains_bytes(
        u,
        &[0x31, 0x32, 0x30, 0x30],
    ) || contains_bytes(u, &[0x45, 0x54, 0x20, 0x32, 0x30, 0x30, 0x53, 0x50])
        || contains_bytes(u, &[0x45, 0x54, 0x32, 0x30, 0x30, 0x53, 0x50]) || (contains_bytes(
        u,
        &[0x43, 0x50, 0x55],
    ) && cpu_model_exec(u));
    if plus {
        Protocol::S7Plus
    } else {
        Protocol::S7
    }
}

fn cpu_model_exec(u: &[u8]) -> (r: bool)
    requires
        contains(u@, kw_cpu()),
    ensures
        r == cpu_model_12_or_15(u@),
{
    proof {
        crate::ascii::lemma_contains_find(u@, kw_cpu());
    }
    let f = find_bytes(u, &[0x43, 0x50, 0x55]);
    proof {
        crate::ascii::lemma_find_sub(u@, kw_cpu(), 0);
    }
    assert(f < u@.len());
    assert(crate::ascii::occurs_at(u@, kw_cpu(), f as int));
    assert(f + 3 <= u.len());
    let rest = &u[f + 3..u.len()];
    let mut k: usize = 0;
    while k < rest.len() && !(48 <= rest[k] && rest[k] <= 57)
        invariant
            k <= rest@.len(),
            first_digit(rest@, 0) == first_digit(rest@, k as int),
        decreases rest@.len() - k,
    {
        k = k + 1;
    }
    k + 1 < rest.len() && 48 <= rest[k + 1] && rest[k + 1] <= 57 && rest[k] == 0x31 && (rest[k + 1] == 0x32
        || rest[k + 1] == 0x35)
}

/// What an SZL 0x001C block gives: the structured entries when they name a
/// module type, serial number or plant; else the tagged sub-records when they
/// name a module type or serial number; else whatever filing the printable runs
/// finds.
pub open spec fn cpu_text_spec(p: Seq<u8>) -> Result<CpuText, Error> {
    if p.len() < 8 {
        Err(Error::UnexpectedResponse)
    } else {
        let id = be16_at(p, 0);
        let el = be16_at(p, 4) as int;
        let cnt = be16_at(p, 6) as int;
        let a = structured_cpu(p, el, cnt);
        let b = sub_record_text(p);
        if id == 0x001C && el >= 4 && cnt > 0 && (a.module_type.len() > 0 || a.serial_number.len() > 0
            || a.as_name.len() > 0) {
            Ok(a)
        } else if b.module_type.len() > 0 || b.serial_number.len() > 0 {
            Ok(b)
        } else {
            Ok(last_resort(p, 0, no_text()))
        }
    }
}

fn cpu_info_of(t: CpuBytes, payload: &[u8]) -> (r: CpuInfo)
    ensures
        r.module_type@ == lossy_text(t.module_type@),
        r.serial_number@ == lossy_text(t.serial_number@),
        r.as_name@ == lossy_text(t.as_name@),
        r.copyright@ == lossy_text(t.copyright@),
        r.module_name@ == lossy_text(t.module_name@),
        r.protocol == protocol_spec(encode_utf8(lossy_text(t.module_type@))),
{
    let module_type = lossy_string(t.module_type.as_slice());
    let protocol = detect_protocol(payload, module_type.as_str());
    CpuInfo {
        module_type,
        serial_number: lossy_string(t.serial_number.as_slice()),
        as_name: lossy_string(t.as_name.as_slice()),
        copyright: lossy_string(t.copyright.as_slice()),
        module_name: lossy_string(t.module_name.as_slice()),
        protocol,
    }
}

/// Reads the CPU identification from an SZL 0x001C block, in whichever of the
/// formats the PLC uses.
pub fn cpu_info_from_szl(p: &[u8]) -> (r: Result<CpuInfo, Error>)
    ensures
        match cpu_text_spec(p@) {
            Ok(t) => (r matches Ok(c) && c.module_type@ == lossy_text(t.module_type) && c.serial_number@
                == lossy_text(t.serial_number) && c.as_name@ == lossy_text(t.as_name) && c.copyright@
                == lossy_text(t.copyright) && c.module_name@ == lossy_text(t.module_name) && c.protocol
                == protocol_spec(encode_utf8(lossy_text(t.module_type)))),
            Err(e) => r == Err::<CpuInfo, Error>(e),
        },
{
    if p.len() < 8 {
        return Err(Error::UnexpectedResponse);
    }
    let id = read_be16(p, 0);
    let el = read_be16(p, 4) as usize;
    let cnt = read_be16(p, 6) as usize;
    if id == 0x001C && el >= 4 && cnt > 0 {
        let a = structured_cpu_exec(p, el, cnt);
        if a.module_type.len() > 0 || a.serial_number.len() > 0 || a.as_name.len() > 0 {
            return Ok(cpu_info_of(a, p));
        }
    }
    let b = sub_record_exec(p);
    if b.module_type.len() > 0 || b.serial_number.len() > 0 {
        return Ok(cpu_info_of(b, p));
    }
    let c = last_resort_exec(p);
    Ok(cpu_info_of(c, p))
}

/// An SZL 0x0131 block in the classic format: id 0x0131, entries of at least 12
/// bytes, at least one, held in full.
pub open spec fn cp_classic(p: Seq<u8>) -> bool {
    p.len() >= 8 && be16_at(p, 0) == 0x0131 && be16_at(p, 4) >= 12 && be16_at(p, 6) >= 1 && p.len() - 8
        >= be16_at(p, 4)
}

/// What an SZL 0x0131 block gives: the first entry's PDU size, connection count
/// and MPI and bus rates in the classic format; zeros otherwise.
pub open spec fn cp_info_spec(p: Seq<u8>) -> CpInfo {
    if cp_classic(p) {
        CpInfo {
            max_pdu_len: be16_at(p, 10) as u32,
            max_connections: be16_at(p, 12) as u32,
            max_mpi_rate: be32_at(p, 14),
            max_bus_rate: be32_at(p, 18),
        }
    } else {
        CpInfo { max_pdu_len: 0, max_connections: 0, max_mpi_rate: 0, max_bus_rate: 0 }
    }
}

/// Reads the CP limits from an SZL 0x0131 block (a classic block must hold the
/// 14 bytes of its first entry).
pub fn cp_info_from_szl(p: &[u8]) -> (r: CpInfo)
    requires
        cp_classic(p@) ==> p@.len() >= 22,
    ensures
        r == cp_info_spec(p@),
{
    if p.len() >= 8 && read_be16(p, 0) == 0x0131 && read_be16(p, 4) >= 12 && read_be16(p, 6) >= 1 && p.len()
        - 8 >= read_be16(p, 4) as usize {
        return CpInfo {
            max_pdu_len: read_be16(p, 10) as u32,
            max_connections: read_be16(p, 12) as u32,
            max_mpi_rate: read_be32(p, 14),
            max_bus_rate: read_be32(p, 18),
        };
    }
    CpInfo { max_pdu_len: 0, max_connections: 0, max_mpi_rate: 0, max_bus_rate: 0 }
}

/// Where the entries of an SZL block start when the header ends at `i`: two
/// bytes later when they look like an entry length (`00 n`, 0 < n <= 200).
pub open spec fn szl_entry_start(p: Seq<u8>, i: int) -> int {
    if p.len() - i >= 2 && p[i] == 0 && 0 < p[i + 1] <= 200 {
        i + 2
    } else {
        i
    }
}

fn szl_entry_start_exec(p: &[u8], i: usize) -> (r: usize)
    requires
        i <= p@.len(),
    ensures
        r as int == szl_entry_start(p@, i as int),
        r <= p@.len(),
{
    if p.len() - i >= 2 && p[i] == 0 && 0 < p[i + 1] && p[i + 1] <= 200 {
        i + 2
    } else {
        i
    }
}

/// The module types an SZL 0x00A0 block lists: its 16-bit words after the
/// header.
pub open spec fn module_list_spec(p: Seq<u8>) -> Seq<u16> {
    if p.len() < 6 {
        Seq::empty()
    } else {
        let s = szl_entry_start(p, 6);
        Seq::new(((p.len() - s) / 2) as nat, |k: int| be16_at(p, s + 2 * k))
    }
}

/// Reads the module list of an SZL 0x00A0 block.
pub fn module_list_from_szl(p: &[u8]) -> (r: Vec<ModuleEntry>)
    ensures
        r@.len() == module_list_spec(p@).len(),
        forall|k: int| 0 <= k < r@.len() ==> (#[trigger] r@[k]).module_type == module_list_spec(p@)[k],
{
    let mut out: Vec<ModuleEntry> = Vec::new();
    if p.len() < 6 {
        return out;
    }
    let s = szl_entry_start_exec(p, 6);
    let mut pos = s;
    while p.len() - pos >= 2
        invariant
            s <= pos <= p@.len(),
            s == szl_entry_start(p@, 6),
            pos == s + 2 * out@.len(),
            forall|k: int| 0 <= k < out@.len() ==> (#[trigger] out@[k]).module_type == be16_at(p@, s + 2 * k),
        decreases p@.len() - pos,
    {
        out.push(ModuleEntry { module_type: read_be16(p, pos) });
        pos = pos + 2;
    }
    assert(out@.len() == (p@.len() - s) / 2);
    out
}

/// The entry ids of an SZL list: the first word of each of at most `left`
/// entries of `el` bytes from `pos` on that the block holds in full.
pub open spec fn szl_ids(p: Seq<u8>, el: int, left: int, pos: int) -> Seq<u16>
    decreases left,
{
    if left <= 0 || pos < 0 || el <= 0 || p.len() - pos < el {
        Seq::empty()
    } else {
        seq![be16_at(p, pos)] + szl_ids(p, el, left - 1, pos + el)
    }
}

/// What the SZL 0x0000 block gives: the ids of the SZLs the PLC supports;
/// none for an empty block, and an error for a short one or entries under two
/// bytes.
pub open spec fn szl_list_spec(p: Seq<u8>) -> Result<Seq<u16>, Error> {
    if p.len() == 0 {
        Ok(Seq::empty())
    } else if p.len() < 8 || be16_at(p, 4) < 2 {
        Err(Error::UnexpectedResponse)
    } else {
        Ok(szl_ids(p, be16_at(p, 4) as int, be16_at(p, 6) as int, 8))
    }
}

/// Reads the list of supported SZL ids.
pub fn szl_list_from_szl(p: &[u8]) -> (r: Result<Vec<u16>, Error>)
    ensures
        match szl_list_spec(p@) {
            Ok(ids) => (r matches Ok(v) && v@ == ids),
            Err(e) => r == Err::<Vec<u16>, Error>(e),
        },
{
    if p.len() == 0 {
        return Ok(Vec::new());
    }
    if p.len() < 8 || read_be16(p, 4) < 2 {
        return Err(Error::UnexpectedResponse);
    }
    let el = read_be16(p, 4) as usize;
    let mut left = read_be16(p, 6) as usize;
    let mut pos: usize = 8;
    let mut ids: Vec<u16> = Vec::new();
    while left > 0 && p.len() - pos >= el
        invariant
            8 <= pos <= p@.len(),
            el >= 2,
            el == be16_at(p@, 4),
            ids@ + szl_ids(p@, el as int, left as int, pos as int) == szl_ids(
                p@,
                el as int,
                be16_at(p@, 6) as int,
                8,
            ),
        decreases left,
    {
        let ghost before = ids@;
        ids.push(read_be16(p, pos));
        assert(ids@ + szl_ids(p@, el as int, left - 1, pos + el) =~= before + szl_ids(
            p@,
            el as int,
            left as int,
            pos as int,
        ));
        left = left - 1;
        pos = pos + el;
    }
    assert(ids@ =~= ids@ + szl_ids(p@, el as int, left as int, pos as int));
    Ok(ids)
}

pub open spec fn kw_password() -> Seq<u8> {
    seq![0x50u8, 0x41, 0x53, 0x53, 0x57, 0x4F, 0x52, 0x44]
}

/// An SZL 0x0032 block long enough for the four protection words.
pub open spec fn protection_readable(p: Seq<u8>) -> bool {
    p.len() < 14 || szl_entry_start(p, 6) + 8 <= p.len()
}

/// What an SZL 0x0032 block gives: scheme SZL, module and bus, the level, and
/// whether the 8-byte password field reads PASSWORD (in any case).
pub open spec fn protection_spec(p: Seq<u8>) -> Result<Protection, Error> {
    if p.len() < 14 {
        Err(Error::UnexpectedResponse)
    } else {
        let s = szl_entry_start(p, 6);
        Ok(
            Protection {
                scheme_szl: be16_at(p, s),
                scheme_module: be16_at(p, s + 2),
                scheme_bus: be16_at(p, s + 4),
                level: be16_at(p, s + 6),
                password_set: p.len() - (s + 8) >= 8 && upper(p.subrange(s + 8, s + 16)) == kw_password(),
            },
        )
    }
}

/// Reads the protection settings from an SZL 0x0032 block.
pub fn protection_from_szl(p: &[u8]) -> (r: Result<Protection, Error>)
    requires
        protection_readable(p@),
    ensures
        r == protection_spec(p@),
{
    if p.len() < 14 {
        return Err(Error::UnexpectedResponse);
    }
    let s = szl_entry_start_exec(p, 6);
    let password_set = if p.len() - (s + 8) >= 8 {
        let u = crate::ascii::upper_range(p, s + 8, s + 16);
        let pw: [u8; 8] = [0x50, 0x41, 0x53, 0x53, 0x57, 0x4F, 0x52, 0x44];
        assert(pw@ =~= kw_password());
        u.len() == 8 && has_prefix(u.as_slice(), &pw)
    } else {
        false
    };
    proof {
        if p@.len() - (s + 8) >= 8 {
            let u = upper(p@.subrange(s + 8, s + 16));
            assert(u.len() == 8);
            assert(starts_with(u, kw_password()) <==> u == kw_password()) by {
                if starts_with(u, kw_password()) {
                    assert(u.subrange(0, 8) =~= u);
                }
                if u == kw_password() {
                    assert(u.subrange(0, 8) =~= u);
                }
            }
        }
    }
    Ok(
        Protection {
            scheme_szl: read_be16(p, s),
            scheme_module: read_be16(p, s + 2),
            scheme_bus: read_be16(p, s + 4),
            level: read_be16(p, s + 6),
            password_set,
        },
    )
}

} // verus!
