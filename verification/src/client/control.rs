//! Requests that control the PLC or move blocks, the answers they get, and
//! the client's named parameters.
use vstd::prelude::*;
use crate::error::{text, Error};
use crate::client::skip_echo;
use crate::proto::s7::clock::{datetime_bytes, datetime_from_bytes, PlcDateTime};
use crate::text::{decimal, numbered_message};
use crate::types::ConnectParams;
use crate::wire::{be16_bytes, be32_at, be32_bytes, copy_range, push_be16, push_be32, push_slice, read_be32};

verus! {

/// The parameters of a request on one block: `[func][0][type][0][number:2]`
/// (delete, upload start, full upload start).
pub open spec fn block_request_bytes(func: u8, block_type: u8, block_number: u16) -> Seq<u8> {
    seq![func, 0x00u8, block_type, 0x00u8] + be16_bytes(block_number)
}

/// Builds the parameters of a request on one block.
pub fn block_request_params(func: u8, block_type: u8, block_number: u16) -> (r: Vec<u8>)
    ensures
        r@ == block_request_bytes(func, block_type, block_number),
{
    let mut p = vec![func, 0x00, block_type, 0x00];
    push_be16(&mut p, block_number);
    assert(p@ =~= block_request_bytes(func, block_type, block_number));
    p
}

/// The parameters of a step of an upload or download session:
/// `[func][step][session id:4]`.
pub open spec fn session_step_bytes(func: u8, step: u8, id: u32) -> Seq<u8> {
    seq![func, step] + be32_bytes(id)
}

/// Builds the parameters of a session step.
pub fn session_step_params(func: u8, step: u8, id: u32) -> (r: Vec<u8>)
    ensures
        r@ == session_step_bytes(func, step, id),
{
    let mut p = vec![func, step];
    push_be32(&mut p, id);
    assert(p@ =~= session_step_bytes(func, step, id));
    p
}

/// The parameters that start a download: the block, then the total length.
pub open spec fn download_start_bytes(block_type: u8, block_number: u16, total: u32) -> Seq<u8> {
    block_request_bytes(0x1E, block_type, block_number) + be32_bytes(total)
}

/// Builds the parameters that start a download.
pub fn download_start_params(block_type: u8, block_number: u16, total: u32) -> (r: Vec<u8>)
    ensures
        r@ == download_start_bytes(block_type, block_number, total),
{
    let mut p = block_request_params(0x1E, block_type, block_number);
    push_be32(&mut p, total);
    p
}

/// The session id in the answer that starts an upload: four bytes after the
/// echoed parameters; an answer under 8 bytes is refused.
pub fn upload_start_reply(body: &[u8]) -> (r: Result<u32, Error>)
    requires
        body@.len() < 8 || body@.len() >= 10,
    ensures
        body@.len() < 8 ==> r == Err::<u32, Error>(Error::UnexpectedResponse),
        body@.len() >= 8 ==> r == Ok::<u32, Error>(be32_at(body@, 2)),
{
    if body.len() < 8 {
        return Err(Error::UnexpectedResponse);
    }
    Ok(read_be32(body, 2))
}

/// The session id in the answer that starts a download: four bytes after the
/// echoed parameters.
pub fn download_start_reply(body: &[u8]) -> (r: Result<u32, Error>)
    ensures
        skip_echo(body@).len() < 4 ==> r == Err::<u32, Error>(Error::UnexpectedResponse),
        skip_echo(body@).len() >= 4 ==> r == Ok::<u32, Error>(be32_at(skip_echo(body@), 0)),
{
    let start: usize = if body.len() >= 2 {
        2
    } else {
        0
    };
    let rest = &body[start..body.len()];
    assert(rest@ == skip_echo(body@));
    if rest.len() < 4 {
        return Err(Error::UnexpectedResponse);
    }
    Ok(read_be32(rest, 0))
}

/// The bytes an upload data answer adds to the block so far: after the echoed
/// parameters, and, in the first answer, after a 4-byte data header that starts
/// with 0xFF or 0x00.
pub open spec fn upload_chunk_bytes(so_far: Seq<u8>, body: Seq<u8>) -> Seq<u8> {
    let d = skip_echo(body);
    if so_far.len() == 0 && d.len() >= 4 && (d[0] == 0xFF || d[0] == 0x00) {
        d.subrange(4, d.len() as int)
    } else {
        d
    }
}

/// The most bytes an upload may collect.
pub const UPLOAD_LIMIT: usize = 4194304;

/// Takes one upload data answer: appends its bytes and says whether to ask for
/// more. An empty answer ends the upload; so does a chunk shorter than the PDU
/// size less 50; a block grown past 4 MiB is refused.
pub fn upload_chunk(block: &mut Vec<u8>, body: &[u8], pdu_size: u16) -> (r: Result<bool, Error>)
    requires
        pdu_size >= 50,
    ensures
        skip_echo(body@).len() == 0 ==> r == Ok::<bool, Error>(false) && final(block)@ == old(block)@,
        skip_echo(body@).len() > 0 ==> final(block)@ == old(block)@ + upload_chunk_bytes(old(block)@, body@)
            && r == (if upload_chunk_bytes(old(block)@, body@).len() < pdu_size - 50 {
            Ok::<bool, Error>(false)
        } else if final(block)@.len() > UPLOAD_LIMIT {
            Err::<bool, Error>(Error::UnexpectedResponse)
        } else {
            Ok::<bool, Error>(true)
        }),
{
    let start: usize = if body.len() >= 2 {
        2
    } else {
        0
    };
    let d = &body[start..body.len()];
    assert(d@ == skip_echo(body@));
    if d.len() == 0 {
        return Ok(false);
    }
    let skip: usize = if block.len() == 0 && d.len() >= 4 && (d[0] == 0xFF || d[0] == 0x00) {
        4
    } else {
        0
    };
    let chunk = &d[skip..d.len()];
    assert(chunk@ == upload_chunk_bytes(old(block)@, body@));
    push_slice(block, chunk);
    if chunk.len() < (pdu_size - 50) as usize {
        return Ok(false);
    }
    if block.len() > UPLOAD_LIMIT {
        return Err(Error::UnexpectedResponse);
    }
    Ok(true)
}

/// The data a download sends per request: the PDU size less 50, never below 0.
pub open spec fn download_avail(pdu: u16) -> int {
    if pdu > 50 {
        pdu - 50
    } else {
        0
    }
}

/// `plan` sends `len` bytes in order: the first piece goes with the start
/// request and is as long as a request carries (or all of the data), each later
/// piece starts where the previous ended and is as long as a request carries,
/// the last ends at `len`.
pub open spec fn is_download_plan(plan: Seq<(usize, usize)>, len: nat, avail: int) -> bool {
    &&& plan.len() >= 1
    &&& plan[0].0 == 0
    &&& plan[0].1 == (if avail < len { avail } else { len as int })
    &&& plan.last().1 == len
    &&& forall|i: int| 0 <= i < plan.len() - 1 ==> #[trigger] plan[i].1 == plan[i + 1].0
    &&& forall|i: int|
        1 <= i < plan.len() ==> #[trigger] plan[i].1 == (if plan[i].0 + avail < len {
            plan[i].0 + avail
        } else {
            len as int
        }) && plan[i].0 < len
}

/// Cuts `len` bytes of block data into the pieces of a download.
pub fn download_plan(len: usize, pdu_size: u16) -> (plan: Vec<(usize, usize)>)
    requires
        len == 0 || pdu_size > 50,
    ensures
        is_download_plan(plan@, len as nat, download_avail(pdu_size)),
{
    let avail: usize = if pdu_size > 50 {
        (pdu_size - 50) as usize
    } else {
        0
    };
    let first = if avail < len {
        avail
    } else {
        len
    };
    let mut plan: Vec<(usize, usize)> = Vec::new();
    plan.push((0, first));
    let mut offset = first;
    while offset < len
        invariant
            len == 0 || avail > 0,
            avail == download_avail(pdu_size),
            offset <= len,
            plan@.len() >= 1,
            plan@[0].0 == 0,
            plan@[0].1 == first,
            first == (if avail < len { avail } else { len }),
            plan@.last().1 == offset,
            forall|i: int| 0 <= i < plan@.len() - 1 ==> #[trigger] plan@[i].1 == plan@[i + 1].0,
            forall|i: int|
                1 <= i < plan@.len() ==> #[trigger] plan@[i].1 == (if plan@[i].0 + avail < len {
                    plan@[i].0 + avail
                } else {
                    len as int
                }) && plan@[i].0 < len,
        decreases len - offset,
    {
        let end = if len - offset > avail {
            offset + avail
        } else {
            len
        };
        let ghost before = plan@;
        plan.push((offset, end));
        assert forall|i: int| 0 <= i < plan@.len() - 1 implies #[trigger] plan@[i].1 == plan@[i + 1].0 by {
            if i < before.len() - 1 {
                assert(plan@[i] == before[i] && plan@[i + 1] == before[i + 1]);
            }
        }
        assert forall|i: int|
            1 <= i < plan@.len() implies #[trigger] plan@[i].1 == (if plan@[i].0 + avail < len {
                plan@[i].0 + avail
            } else {
                len as int
            }) && plan@[i].0 < len by {
            if i < before.len() {
                assert(plan@[i] == before[i]);
            }
        }
        offset = end;
    }
    plan
}

/// The bytes `db_fill` writes per request.
pub const FILL_CHUNK: usize = 240;

/// The pieces `db_fill` writes a DB of `size` bytes in: 240 bytes each, the
/// last one cut at the end; a DB of size 0 is refused with code 0.
pub fn db_fill_plan(db_number: u16, size: u16) -> (r: Result<Vec<(usize, usize)>, Error>)
    ensures
        size == 0 ==> (r matches Err(Error::PlcError { code, message }) && code == 0 && message@ == "DB"@
            + decimal(db_number as nat) + " has zero size"@),
        size > 0 ==> (r matches Ok(plan) && plan@.len() == (size + 239) / 240 && forall|i: int|
            0 <= i < plan@.len() ==> (#[trigger] plan@[i]).0 == 240 * i && plan@[i].1 == (if 240 * i + 240
                < size { 240 * i + 240 } else { size as int })),
{
    if size == 0 {
        return Err(Error::PlcError { code: 0, message: numbered_message("DB", db_number as u64, " has zero size") });
    }
    let n = size as usize;
    let mut plan: Vec<(usize, usize)> = Vec::new();
    let mut k: usize = 0;
    while k * FILL_CHUNK < n
        invariant
            plan@.len() == k,
            n == size,
            k <= (size + 239) / 240,
            forall|i: int|
                0 <= i < plan@.len() ==> (#[trigger] plan@[i]).0 == 240 * i && plan@[i].1 == (if 240 * i + 240
                    < size { 240 * i + 240 } else { size as int }),
        decreases (size + 239) / 240 - k,
    {
        let offset = k * FILL_CHUNK;
        assert(k + 1 <= (size + 239) / 240) by (nonlinear_arith)
            requires
                k * 240 < size,
        ;
        let end = if offset + FILL_CHUNK < n {
            offset + FILL_CHUNK
        } else {
            n
        };
        plan.push((offset, end));
        k = k + 1;
    }
    Ok(plan)
}

/// Days in `year` of the Gregorian calendar.
pub open spec fn days_in_year(year: int) -> int {
    if (year % 4 == 0 && year % 100 != 0) || year % 400 == 0 {
        366
    } else {
        365
    }
}

/// The year that day `d` (counted from the start of `year`) falls in, and the
/// day within that year.
pub open spec fn year_of(d: int, year: int) -> (int, int)
    decreases d,
{
    if d < days_in_year(year) || d < 0 {
        (year, d)
    } else {
        year_of(d - days_in_year(year), year + 1)
    }
}

/// Days in `month` (1 to 12) of a year of the given length.
pub open spec fn days_in_month(month: int, leap: bool) -> int {
    if month == 2 {
        if leap {
            29
        } else {
            28
        }
    } else if month == 4 || month == 6 || month == 9 || month == 11 {
        30
    } else {
        31
    }
}

/// The month that day `d` of a year falls in (counting from `month`), and the
/// day within that month.
pub open spec fn month_of(d: int, month: int, leap: bool) -> (int, int)
    decreases 13 - month,
{
    if month >= 12 || d < days_in_month(month, leap) {
        (month, d)
    } else {
        month_of(d - days_in_month(month, leap), month + 1, leap)
    }
}

/// The UTC date and time of `secs` seconds after 1970-01-01, without leap
/// seconds, milliseconds 0 and weekday 0.
pub open spec fn datetime_of_secs(secs: int) -> PlcDateTime {
    let (y, yd) = year_of(secs / 86400, 1970);
    let (m, md) = month_of(yd, 1, days_in_year(y) == 366);
    PlcDateTime {
        year: y as u16,
        month: m as u8,
        day: (md + 1) as u8,
        hour: ((secs / 3600) % 24) as u8,
        minute: ((secs / 60) % 60) as u8,
        second: (secs % 60) as u8,
        millisecond: 0,
        weekday: 0,
    }
}

proof fn lemma_year_of(d: int, year: int)
    requires
        0 <= d,
        1970 <= year,
    ensures
        year_of(d, year).0 >= year,
        year_of(d, year).0 <= year + d / 365,
        0 <= year_of(d, year).1 < days_in_year(year_of(d, year).0),
    decreases d,
{
    if d >= days_in_year(year) {
        lemma_year_of(d - days_in_year(year), year + 1);
    }
}

proof fn lemma_month_of(d: int, month: int, leap: bool)
    requires
        1 <= month <= 12,
        0 <= d,
        d < (if leap { 366int } else { 365int }) - days_before(month, leap),
    ensures
        month <= month_of(d, month, leap).0 <= 12,
        0 <= month_of(d, month, leap).1 < days_in_month(month_of(d, month, leap).0, leap),
    decreases 13 - month,
{
    lemma_days_before_year(leap);
    if month < 12 && d >= days_in_month(month, leap) {
        lemma_month_of(d - days_in_month(month, leap), month + 1, leap);
    }
}

/// The months of a year add up to its length.
proof fn lemma_days_before_year(leap: bool)
    ensures
        days_before(12, leap) + days_in_month(12, leap) == (if leap { 366int } else { 365int }),
        days_before(1, leap) == 0,
{
    reveal_with_fuel(days_before, 13);
}

/// Days of a year before `month` begins.
pub open spec fn days_before(month: int, leap: bool) -> int
    decreases month,
{
    if month <= 1 {
        0
    } else {
        days_before(month - 1, leap) + days_in_month(month - 1, leap)
    }
}

/// Leap years from year 1 to year `n` by the Gregorian rule, counted by
/// formula: every fourth year, less the centuries, plus every fourth century.
pub open spec fn leap_years_through(n: int) -> int {
    n / 4 - n / 100 + n / 400
}

/// The day (from 1970-01-01, counted from 0) on which `year` begins, by the
/// closed formula: 365 days a year plus one for each leap year before it.
pub open spec fn year_begin(year: int) -> int {
    365 * (year - 1970) + leap_years_through(year - 1) - leap_years_through(1969)
}

/// Each year lasts from its beginning to the next one's, by the closed formula.
pub proof fn lemma_year_length(year: int)
    requires
        1970 <= year,
    ensures
        year_begin(year + 1) - year_begin(year) == days_in_year(year),
{
    let n = year;
    assert(n / 4 - (n - 1) / 4 == if n % 4 == 0 { 1int } else { 0int });
    assert(n / 100 - (n - 1) / 100 == if n % 100 == 0 { 1int } else { 0int });
    assert(n / 400 - (n - 1) / 400 == if n % 400 == 0 { 1int } else { 0int });
    assert(n % 400 == 0 ==> n % 100 == 0 && n % 4 == 0);
    assert(n % 100 == 0 ==> n % 4 == 0);
}

proof fn lemma_year_of_sum(d: int, year: int)
    requires
        0 <= d,
        1970 <= year,
    ensures
        year_begin(year_of(d, year).0) + year_of(d, year).1 == year_begin(year) + d,
    decreases d,
{
    if d >= days_in_year(year) {
        lemma_year_length(year);
        lemma_year_of_sum(d - days_in_year(year), year + 1);
    }
}

/// The year of a count of days since 1970-01-01 is the one that, by the closed
/// formula of Gregorian year lengths, begins at most that many days in and
/// lasts past it; the day of the year is the count less its beginning.
pub proof fn lemma_year_of_days(d: int)
    requires
        0 <= d,
    ensures
        year_begin(year_of(d, 1970).0) + year_of(d, 1970).1 == d,
        0 <= year_of(d, 1970).1 < year_begin(year_of(d, 1970).0 + 1) - year_begin(year_of(d, 1970).0),
{
    lemma_year_of(d, 1970);
    lemma_year_of_sum(d, 1970);
    lemma_year_length(year_of(d, 1970).0);
}

/// The day of the year (from 0) on which `month` begins, by the closed
/// formula of the Gregorian month lengths: `(367 m - 362) / 12`, less two days
/// after February in a common year and one in a leap year.
pub open spec fn month_start(month: int, leap: bool) -> int {
    (367 * month - 362) / 12 - if month <= 2 {
        0int
    } else if leap {
        1int
    } else {
        2int
    }
}

/// The months of the calendar begin where the closed formula says: January
/// 31 days, February 28 or 29, then 31, 30, 31, 30, 31, 31, 30, 31, 30, 31.
pub proof fn lemma_month_starts(month: int, leap: bool)
    requires
        1 <= month <= 12,
    ensures
        days_before(month, leap) == month_start(month, leap),
        month < 12 ==> days_in_month(month, leap) == month_start(month + 1, leap) - month_start(month, leap),
        month == 12 ==> days_in_month(month, leap) == (if leap { 366int } else { 365int }) - month_start(
            12,
            leap,
        ),
{
    reveal_with_fuel(days_before, 13);
}

proof fn lemma_month_of_sum(d: int, month: int, leap: bool)
    requires
        1 <= month <= 12,
        0 <= d,
    ensures
        days_before(month_of(d, month, leap).0, leap) + month_of(d, month, leap).1 == days_before(month, leap)
            + d,
    decreases 13 - month,
{
    if month < 12 && d >= days_in_month(month, leap) {
        lemma_month_of_sum(d - days_in_month(month, leap), month + 1, leap);
    }
}

/// The date of a count of seconds lies where the calendar puts it: its month
/// begins (by the closed formula of month lengths) `day - 1` days before the
/// day of the year that the count falls on, and the day is within the month.
pub proof fn lemma_date_in_year(secs: int)
    requires
        0 <= secs,
    ensures
        ({
            let (y, yd) = year_of(secs / 86400, 1970);
            let leap = days_in_year(y) == 366;
            let dt = datetime_of_secs(secs);
            &&& 1 <= dt.month <= 12
            &&& 1 <= dt.day
            &&& month_start(dt.month as int, leap) + dt.day - 1 == yd
            &&& dt.month < 12 ==> dt.day <= month_start(dt.month + 1, leap) - month_start(dt.month as int, leap)
            &&& dt.month == 12 ==> dt.day <= days_in_year(y) - month_start(12, leap)
        }),
{
    let (y, yd) = year_of(secs / 86400, 1970);
    let leap = days_in_year(y) == 366;
    lemma_year_of(secs / 86400, 1970);
    lemma_days_before_year(leap);
    lemma_month_of(yd, 1, leap);
    lemma_month_of_sum(yd, 1, leap);
    let (m, md) = month_of(yd, 1, leap);
    lemma_month_starts(m, leap);
    lemma_month_starts(1, leap);
    assert(md + 1 <= 31);
    let dt = datetime_of_secs(secs);
    assert(dt.month as int == m);
    assert(dt.day as int == md + 1);
}

/// The PLC date and time for a count of seconds since 1970 (years up to
/// 65535: counts below 2e12 seconds).
pub fn datetime_from_unix_secs(secs: u64) -> (r: PlcDateTime)
    requires
        secs <= 2_000_000_000_000,
    ensures
        r == datetime_of_secs(secs as int),
{
    let s = secs % 60;
    let m = (secs / 60) % 60;
    let h = (secs / 3600) % 24;
    let days = secs / 86400;
    let mut year: u16 = 1970;
    let mut d: u64 = days;
    proof {
        lemma_year_of(days as int, 1970);
    }
    loop
        invariant
            1970 <= year,
            d <= days,
            year as int + d as int / 365 <= 1970 + days as int / 365,
            days as int <= 2_000_000_000_000int / 86400,
            year_of(days as int, 1970) == year_of(d as int, year as int),
        ensures
            year_of(days as int, 1970) == (year as int, d as int),
        decreases d,
    {
        let leap = (year % 4 == 0 && year % 100 != 0) || year % 400 == 0;
        let diy: u64 = if leap {
            366
        } else {
            365
        };
        if d < diy {
            break;
        }
        d = d - diy;
        year = year + 1;
    }
    let leap = (year % 4 == 0 && year % 100 != 0) || year % 400 == 0;
    proof {
        lemma_year_of(days as int, 1970);
        lemma_days_before_year(leap);
        lemma_month_of(d as int, 1, leap);
    }
    let mut month: u8 = 1;
    loop
        invariant
            1 <= month <= 12,
            0 <= d,
            d < (if leap { 366int } else { 365int }) - days_before(month as int, leap),
            month_of(year_of(days as int, 1970).1, 1, days_in_year(year as int) == 366) == month_of(
                d as int,
                month as int,
                leap,
            ),
            leap == (days_in_year(year as int) == 366),
        ensures
            month_of(year_of(days as int, 1970).1, 1, days_in_year(year as int) == 366) == (
                month as int,
                d as int,
            ),
            1 <= month <= 12,
            0 <= d,
            d < (if leap { 366int } else { 365int }) - days_before(month as int, leap),
        decreases 13 - month,
    {
        let dpm: u64 = if month == 2 {
            if leap {
                29
            } else {
                28
            }
        } else if month == 4 || month == 6 || month == 9 || month == 11 {
            30
        } else {
            31
        };
        if month >= 12 || d < dpm {
            break;
        }
        d = d - dpm;
        month = month + 1;
    }
    proof {
        lemma_month_of(d as int, month as int, leap);
    }
    PlcDateTime {
        year,
        month,
        day: (d + 1) as u8,
        hour: h as u8,
        minute: m as u8,
        second: s as u8,
        millisecond: 0,
        weekday: 0,
    }
}

/// The parameters that read the PLC clock.
pub open spec fn clock_read_bytes() -> Seq<u8> {
    seq![0x00u8, 0x01, 0x12, 0x04, 0xF5, 0x00]
}

/// The parameters that set the PLC clock.
pub open spec fn clock_set_param_bytes() -> Seq<u8> {
    seq![0x00u8, 0x01, 0x12, 0x08, 0xF5, 0x01]
}

/// Builds the parameters and data that set the PLC clock to `dt`: an 8-byte
/// octet-string envelope around its BCD form.
pub fn clock_set_request(dt: &PlcDateTime) -> (r: (Vec<u8>, Vec<u8>))
    ensures
        r.0@ == clock_set_param_bytes(),
        r.1@ == seq![0xFFu8, 0x09, 0x00, 0x08] + datetime_bytes(*dt),
{
    let p = vec![0x00u8, 0x01, 0x12, 0x08, 0xF5, 0x01];
    let mut d = vec![0xFFu8, 0x09, 0x00, 0x08];
    dt.encode(&mut d);
    assert(p@ =~= clock_set_param_bytes());
    (p, d)
}

/// Builds the parameters that read the PLC clock.
pub fn clock_read_params() -> (r: Vec<u8>)
    ensures
        r@ == clock_read_bytes(),
{
    let p = vec![0x00u8, 0x01, 0x12, 0x04, 0xF5, 0x00];
    assert(p@ =~= clock_read_bytes());
    p
}

/// The PLC clock in an answer: its last 8 bytes.
pub fn clock_from_reply(body: &[u8]) -> (r: Result<PlcDateTime, Error>)
    ensures
        body@.len() < 8 ==> (r matches Err(Error::Proto(_))),
        body@.len() >= 8 ==> r == Ok::<PlcDateTime, Error>(
            datetime_from_bytes(body@.subrange(body@.len() - 8, body@.len() as int)),
        ),
{
    let start = if body.len() > 8 {
        body.len() - 8
    } else {
        0
    };
    match PlcDateTime::decode(&body[start..body.len()]) {
        Ok((dt, _)) => Ok(dt),
        Err(e) => Err(Error::Proto(e)),
    }
}

/// The parameters of a control request: the function code and a zero
/// (0x29 stop, 0x28 hot start, 0x2A cold start, 0x11 clear password).
pub fn control_params(func: u8) -> (r: Vec<u8>)
    ensures
        r@ == seq![func, 0x00u8],
{
    let p = vec![func, 0x00];
    assert(p@ =~= seq![func, 0x00u8]);
    p
}

/// The parameters and data that set the session password: function 0x12 and
/// the obfuscated password.
pub fn session_password_request(password: &str) -> (r: (Vec<u8>, Vec<u8>))
    ensures
        r.0@ == seq![0x12u8, 0x00u8],
        r.1@ == crate::types::password_field(vstd::utf8::encode_utf8(password@)).map_values(
            |b: u8| crate::types::obfuscate_byte(b),
        ),
{
    let enc = crate::types::encrypt_password(password);
    let mut d: Vec<u8> = Vec::new();
    push_slice(&mut d, enc.as_slice());
    (control_params(0x12), d)
}

/// The parameters of the RAM-to-ROM copy (function 0x43) and memory
/// compression (0x42) requests.
pub fn memory_request_params(func: u8) -> (r: Vec<u8>)
    ensures
        r@ == seq![0x00u8, 0x01, 0x12, 0x04, func, 0x44, 0x01, 0x00],
{
    let p = vec![0x00u8, 0x01, 0x12, 0x04, func, 0x44, 0x01, 0x00];
    assert(p@ =~= seq![0x00u8, 0x01, 0x12, 0x04, func, 0x44, 0x01, 0x00]);
    p
}

/// The parameters and data of "list all blocks".
pub fn list_blocks_request() -> (r: (Vec<u8>, Vec<u8>))
    ensures
        r.0@ == seq![0x00u8, 0x01, 0x12, 0x04, 0x11, 0x43, 0x01, 0x00],
        r.1@ == seq![0x0Au8, 0x00, 0x00, 0x00],
{
    let p = vec![0x00u8, 0x01, 0x12, 0x04, 0x11, 0x43, 0x01, 0x00];
    let d = vec![0x0Au8, 0x00, 0x00, 0x00];
    assert(p@ =~= seq![0x00u8, 0x01, 0x12, 0x04, 0x11, 0x43, 0x01, 0x00]);
    assert(d@ =~= seq![0x0Au8, 0x00, 0x00, 0x00]);
    (p, d)
}

/// The parameters and data of a "list blocks of a type" request: the first
/// names the type, a continuation names the sequence number.
pub fn list_blocks_of_type_request(first: bool, seq: u8, block_type: u8) -> (r: (Vec<u8>, Vec<u8>))
    ensures
        first ==> r.0@ == seq![0x00u8, 0x01, 0x12, 0x04, 0x11, 0x43, 0x02, 0x00] && r.1@ == seq![
            0xFFu8,
            0x09,
            0x00,
            0x02,
            0x30,
            block_type,
        ],
        !first ==> r.0@ == seq![0x00u8, 0x01, 0x12, 0x08, 0x12, 0x43, 0x02, seq, 0x00, 0x00, 0x00, 0x00]
            && r.1@ == seq![0x0Au8, 0x00, 0x00, 0x00],
{
    if first {
        let p = vec![0x00u8, 0x01, 0x12, 0x04, 0x11, 0x43, 0x02, 0x00];
        let d = vec![0xFFu8, 0x09, 0x00, 0x02, 0x30, block_type];
        assert(p@ =~= seq![0x00u8, 0x01, 0x12, 0x04, 0x11, 0x43, 0x02, 0x00]);
        assert(d@ =~= seq![0xFFu8, 0x09, 0x00, 0x02, 0x30, block_type]);
        (p, d)
    } else {
        let p = vec![0x00u8, 0x01, 0x12, 0x08, 0x12, 0x43, 0x02, seq, 0x00, 0x00, 0x00, 0x00];
        let d = vec![0x0Au8, 0x00, 0x00, 0x00];
        assert(p@ =~= seq![0x00u8, 0x01, 0x12, 0x08, 0x12, 0x43, 0x02, seq, 0x00, 0x00, 0x00, 0x00]);
        assert(d@ =~= seq![0x0Au8, 0x00, 0x00, 0x00]);
        (p, d)
    }
}

fn same_bytes(a: &[u8], b: &[u8]) -> (r: bool)
    ensures
        r == (a@ == b@),
{
    if a.len() != b.len() {
        return false;
    }
    let mut i: usize = 0;
    while i < a.len()
        invariant
            a@.len() == b@.len(),
            i <= a@.len(),
            forall|k: int| 0 <= k < i ==> a@[k] == b@[k],
        decreases a@.len() - i,
    {
        if a[i] != b[i] {
            return false;
        }
        i = i + 1;
    }
    assert(a@ =~= b@);
    true
}

/// The value of a named client parameter in milliseconds: "request_timeout" or
/// "connect_timeout"; "pdu_size" is no duration, and any other name is unknown.
pub fn get_param(params: &ConnectParams, name: &str) -> (r: Result<u64, Error>)
    ensures
        name@ == "request_timeout"@ ==> r == Ok::<u64, Error>(params.request_timeout_ms),
        name@ == "connect_timeout"@ ==> r == Ok::<u64, Error>(params.connect_timeout_ms),
        name@ == "pdu_size"@ ==> (r matches Err(Error::PlcError { code, message }) && code == 0 && message@
            == "pdu_size is not a Duration; use .params.pdu_size directly"@),
        name@ != "request_timeout"@ && name@ != "connect_timeout"@ && name@ != "pdu_size"@ ==> (r matches Err(
            Error::PlcError { code, message },
        ) && code == 0 && message@ == "unknown parameter: "@ + name@),
{
    proof {
        reveal_strlit("request_timeout");
        reveal_strlit("connect_timeout");
        reveal_strlit("pdu_size");
    }
    let n = name.as_bytes();
    if same_bytes(n, "request_timeout".as_bytes()) {
        proof {
            lemma_same_text(name, "request_timeout");
        }
        return Ok(params.request_timeout_ms);
    }
    proof {
        lemma_same_text(name, "request_timeout");
    }
    if same_bytes(n, "connect_timeout".as_bytes()) {
        proof {
            lemma_same_text(name, "connect_timeout");
        }
        return Ok(params.connect_timeout_ms);
    }
    proof {
        lemma_same_text(name, "connect_timeout");
    }
    if same_bytes(n, "pdu_size".as_bytes()) {
        proof {
            lemma_same_text(name, "pdu_size");
        }
        return Err(Error::PlcError { code: 0, message: text("pdu_size is not a Duration; use .params.pdu_size directly") });
    }
    proof {
        lemma_same_text(name, "pdu_size");
    }
    let mut m = text("unknown parameter: ");
    m.append(name);
    Err(Error::PlcError { code: 0, message: m })
}

/// Sets a named client parameter: only "request_timeout" (in milliseconds) can
/// be set; any other name is unknown and changes nothing.
pub fn set_param(params: &mut ConnectParams, name: &str, value_ms: u64) -> (r: Result<(), Error>)
    ensures
        name@ == "request_timeout"@ ==> r is Ok && *final(params) == (ConnectParams {
            request_timeout_ms: value_ms,
            ..*old(params)
        }),
        name@ != "request_timeout"@ ==> (r matches Err(Error::PlcError { code, message }) && code == 0
            && message@ == "unknown parameter: "@ + name@) && *final(params) == *old(params),
{
    proof {
        lemma_same_text(name, "request_timeout");
    }
    if same_bytes(name.as_bytes(), "request_timeout".as_bytes()) {
        params.request_timeout_ms = value_ms;
        return Ok(());
    }
    let mut m = text("unknown parameter: ");
    m.append(name);
    Err(Error::PlcError { code: 0, message: m })
}

/// Two texts are equal exactly when their UTF-8 bytes are.
proof fn lemma_same_text(a: &str, b: &str)
    ensures
        (vstd::utf8::encode_utf8(a@) == vstd::utf8::encode_utf8(b@)) <==> (a@ == b@),
{
    vstd::utf8::encode_utf8_decode_utf8(a@);
    vstd::utf8::encode_utf8_decode_utf8(b@);
}

} // verus!
