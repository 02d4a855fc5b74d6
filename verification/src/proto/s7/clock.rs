//! The PLC date and time in its 8-byte BCD wire form.
use vstd::prelude::*;
use crate::error::ProtoError;

verus! {

/// A PLC date and time.
#[derive(Debug, Clone, Copy, PartialEq, Eq, Structural)]
pub struct PlcDateTime {
    pub year: u16,
    pub month: u8,
    pub day: u8,
    pub hour: u8,
    pub minute: u8,
    pub second: u8,
    pub millisecond: u16,
    /// 1 = Sunday .. 7 = Saturday.
    pub weekday: u8,
}

/// The BCD byte of `v` (the tens digit is cut to 4 bits).
pub open spec fn bcd(v: u8) -> u8 {
    (((v / 10) % 16) * 16 + v % 10) as u8
}

/// The value of a BCD byte.
pub open spec fn unbcd(v: u8) -> u8 {
    ((v / 16) * 10 + v % 16) as u8
}

/// The 8 wire bytes of a date and time.
pub open spec fn datetime_bytes(dt: PlcDateTime) -> Seq<u8> {
    seq![
        bcd((dt.year % 100) as u8),
        bcd(dt.month),
        bcd(dt.day),
        bcd(dt.hour),
        bcd(dt.minute),
        bcd(dt.second),
        bcd((dt.millisecond / 10) as u8),
        (((dt.millisecond % 10) as u8) * 16 + dt.weekday % 16) as u8,
    ]
}

/// The date and time the 8 bytes `s[0..8]` stand for; two-digit years from 90
/// on are read as 19xx, the others as 20xx.
pub open spec fn datetime_from_bytes(s: Seq<u8>) -> PlcDateTime {
    let y = unbcd(s[0]) as u16;
    PlcDateTime {
        year: if y >= 90 {
            (1900 + y) as u16
        } else {
            (2000 + y) as u16
        },
        month: unbcd(s[1]),
        day: unbcd(s[2]),
        hour: unbcd(s[3]),
        minute: unbcd(s[4]),
        second: unbcd(s[5]),
        millisecond: (unbcd(s[6]) as int * 10 + s[7] / 16) as u16,
        weekday: s[7] % 16,
    }
}

impl PlcDateTime {
    /// The BCD byte of `v`.
    pub fn to_bcd(v: u8) -> (r: u8)
        ensures
            r == bcd(v),
    {
        ((v / 10) % 16) * 16 + v % 10
    }

    /// The value of the BCD byte `v`.
    pub fn from_bcd(v: u8) -> (r: u8)
        ensures
            r == unbcd(v),
    {
        (v / 16) * 10 + v % 16
    }

    /// Appends the 8 wire bytes.
    pub fn encode(&self, buf: &mut Vec<u8>)
        ensures
            final(buf)@ == old(buf)@ + datetime_bytes(*self),
    {
        let y = (self.year % 100) as u8;
        buf.push(Self::to_bcd(y));
        buf.push(Self::to_bcd(self.month));
        buf.push(Self::to_bcd(self.day));
        buf.push(Self::to_bcd(self.hour));
        buf.push(Self::to_bcd(self.minute));
        buf.push(Self::to_bcd(self.second));
        buf.push(Self::to_bcd((self.millisecond / 10) as u8));
        buf.push(((self.millisecond % 10) as u8) * 16 + self.weekday % 16);
        assert(final(buf)@ =~= old(buf)@ + datetime_bytes(*self));
    }

    /// Decodes a date and time from the first 8 bytes of `buf`.
    pub fn decode(buf: &[u8]) -> (r: Result<(PlcDateTime, usize), ProtoError>)
        ensures
            buf@.len() < 8 ==> r == Err::<(PlcDateTime, usize), ProtoError>(
                ProtoError::BufferTooShort { need: 8, have: buf@.len() as usize },
            ),
            buf@.len() >= 8 ==> r == Ok::<(PlcDateTime, usize), ProtoError>(
                (datetime_from_bytes(buf@), 8),
            ),
    {
        if buf.len() < 8 {
            return Err(ProtoError::BufferTooShort { need: 8, have: buf.len() });
        }
        let y = Self::from_bcd(buf[0]) as u16;
        let year = if y >= 90 {
            1900 + y
        } else {
            2000 + y
        };
        let month = Self::from_bcd(buf[1]);
        let day = Self::from_bcd(buf[2]);
        let hour = Self::from_bcd(buf[3]);
        let minute = Self::from_bcd(buf[4]);
        let second = Self::from_bcd(buf[5]);
        let millisecond = (Self::from_bcd(buf[6]) as u16) * 10 + (buf[7] / 16) as u16;
        let weekday = buf[7] % 16;
        Ok(
            (
                PlcDateTime { year, month, day, hour, minute, second, millisecond, weekday },
                8,
            ),
        )
    }
}

/// Two decimal digits survive the trip through BCD.
pub proof fn lemma_bcd_roundtrip(v: u8)
    requires
        v < 100,
    ensures
        unbcd(bcd(v)) == v,
{
}

/// A date and time whose fields fit the wire (years 1990..=2089, two-digit
/// fields below 100, milliseconds below 1000, weekday below 16).
pub open spec fn datetime_fits(dt: PlcDateTime) -> bool {
    &&& 1990 <= dt.year <= 2089
    &&& dt.month < 100 && dt.day < 100 && dt.hour < 100
    &&& dt.minute < 100 && dt.second < 100
    &&& dt.millisecond < 1000
    &&& dt.weekday < 16
}

/// Decoding the bytes of a date and time gives it back whenever it fits the wire.
pub proof fn lemma_datetime_roundtrip(dt: PlcDateTime)
    requires
        datetime_fits(dt),
    ensures
        datetime_from_bytes(datetime_bytes(dt)) == dt,
{
    let s = datetime_bytes(dt);
    lemma_bcd_roundtrip((dt.year % 100) as u8);
    lemma_bcd_roundtrip(dt.month);
    lemma_bcd_roundtrip(dt.day);
    lemma_bcd_roundtrip(dt.hour);
    lemma_bcd_roundtrip(dt.minute);
    lemma_bcd_roundtrip(dt.second);
    lemma_bcd_roundtrip((dt.millisecond / 10) as u8);
    assert(s[7] / 16 == dt.millisecond % 10);
    assert(s[7] % 16 == dt.weekday);
}

} // verus!
