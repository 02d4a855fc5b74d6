//! The S7 PDU header and the codes it carries.
use vstd::prelude::*;
use crate::error::ProtoError;
use crate::wire::{be16_at, be16_bytes, lemma_be16_roundtrip, push_be16, read_be16};

verus! {

pub const S7_MAGIC: u8 = 0x32;

/// S7 PDU types.
#[derive(Debug, Clone, Copy, PartialEq, Eq, Structural)]
pub enum PduType {
    Job,
    Ack,
    AckData,
    UserData,
}

impl PduType {
    pub open spec fn code(self) -> u8 {
        match self {
            PduType::Job => 0x01,
            PduType::Ack => 0x02,
            PduType::AckData => 0x03,
            PduType::UserData => 0x07,
        }
    }

    /// The wire code of the PDU type.
    pub fn as_u8(&self) -> (r: u8)
        ensures
            r == self.code(),
    {
        match self {
            PduType::Job => 0x01,
            PduType::Ack => 0x02,
            PduType::AckData => 0x03,
            PduType::UserData => 0x07,
        }
    }

    pub open spec fn from_code(v: u8) -> Result<PduType, ProtoError> {
        if v == 0x01 {
            Ok(PduType::Job)
        } else if v == 0x02 {
            Ok(PduType::Ack)
        } else if v == 0x03 {
            Ok(PduType::AckData)
        } else if v == 0x07 {
            Ok(PduType::UserData)
        } else {
            Err(ProtoError::UnsupportedPduType(v))
        }
    }

    /// The PDU type with wire code `v`; any other code is refused.
    pub fn try_from(v: u8) -> (r: Result<PduType, ProtoError>)
        ensures
            r == Self::from_code(v),
    {
        match v {
            0x01 => Ok(PduType::Job),
            0x02 => Ok(PduType::Ack),
            0x03 => Ok(PduType::AckData),
            0x07 => Ok(PduType::UserData),
            _ => Err(ProtoError::UnsupportedPduType(v)),
        }
    }
}

/// PLC memory areas.
#[derive(Debug, Clone, Copy, PartialEq, Eq, Structural)]
pub enum Area {
    /// Direct peripheral access, bypassing the process image (used for forcing).
    PeripheralInput,
    ProcessInput,
    ProcessOutput,
    Marker,
    DataBlock,
    InstanceDB,
    LocalData,
    Counter,
    Timer,
}

impl Area {
    pub open spec fn code(self) -> u8 {
        match self {
            Area::PeripheralInput => 0x80,
            Area::ProcessInput => 0x81,
            Area::ProcessOutput => 0x82,
            Area::Marker => 0x83,
            Area::DataBlock => 0x84,
            Area::InstanceDB => 0x85,
            Area::LocalData => 0x86,
            Area::Counter => 0x1C,
            Area::Timer => 0x1D,
        }
    }

    /// The wire code of the area.
    pub fn as_u8(&self) -> (r: u8)
        ensures
            r == self.code(),
    {
        match self {
            Area::PeripheralInput => 0x80,
            Area::ProcessInput => 0x81,
            Area::ProcessOutput => 0x82,
            Area::Marker => 0x83,
            Area::DataBlock => 0x84,
            Area::InstanceDB => 0x85,
            Area::LocalData => 0x86,
            Area::Counter => 0x1C,
            Area::Timer => 0x1D,
        }
    }

    pub open spec fn from_code(v: u8) -> Result<Area, ProtoError> {
        if v == 0x80 {
            Ok(Area::PeripheralInput)
        } else if v == 0x81 {
            Ok(Area::ProcessInput)
        } else if v == 0x82 {
            Ok(Area::ProcessOutput)
        } else if v == 0x83 {
            Ok(Area::Marker)
        } else if v == 0x84 {
            Ok(Area::DataBlock)
        } else if v == 0x85 {
            Ok(Area::InstanceDB)
        } else if v == 0x86 {
            Ok(Area::LocalData)
        } else if v == 0x1C {
            Ok(Area::Counter)
        } else if v == 0x1D {
            Ok(Area::Timer)
        } else {
            Err(ProtoError::UnsupportedArea(v))
        }
    }

    /// The area with wire code `v`; any other code is refused.
    pub fn try_from(v: u8) -> (r: Result<Area, ProtoError>)
        ensures
            r == Self::from_code(v),
    {
        match v {
            0x80 => Ok(Area::PeripheralInput),
            0x81 => Ok(Area::ProcessInput),
            0x82 => Ok(Area::ProcessOutput),
            0x83 => Ok(Area::Marker),
            0x84 => Ok(Area::DataBlock),
            0x85 => Ok(Area::InstanceDB),
            0x86 => Ok(Area::LocalData),
            0x1C => Ok(Area::Counter),
            0x1D => Ok(Area::Timer),
            _ => Err(ProtoError::UnsupportedArea(v)),
        }
    }
}

/// S7 transport sizes (element types of a variable access).
#[derive(Debug, Clone, Copy, PartialEq, Eq, Structural)]
pub enum TransportSize {
    Bit,
    Byte,
    Char,
    Word,
    Int,
    DWord,
    DInt,
    Real,
    Date,
    Tod,
    Time,
    S5Time,
    DtL,
    Counter,
    Timer,
}

impl TransportSize {
    pub open spec fn code(self) -> u8 {
        match self {
            TransportSize::Bit => 0x01,
            TransportSize::Byte => 0x02,
            TransportSize::Char => 0x03,
            TransportSize::Word => 0x04,
            TransportSize::Int => 0x05,
            TransportSize::DWord => 0x06,
            TransportSize::DInt => 0x07,
            TransportSize::Real => 0x08,
            TransportSize::Date => 0x09,
            TransportSize::Tod => 0x0A,
            TransportSize::Time => 0x0B,
            TransportSize::S5Time => 0x0C,
            TransportSize::DtL => 0x0F,
            TransportSize::Counter => 0x1C,
            TransportSize::Timer => 0x1D,
        }
    }

    /// The wire code of the transport size.
    pub fn as_u8(&self) -> (r: u8)
        ensures
            r == self.code(),
    {
        match self {
            TransportSize::Bit => 0x01,
            TransportSize::Byte => 0x02,
            TransportSize::Char => 0x03,
            TransportSize::Word => 0x04,
            TransportSize::Int => 0x05,
            TransportSize::DWord => 0x06,
            TransportSize::DInt => 0x07,
            TransportSize::Real => 0x08,
            TransportSize::Date => 0x09,
            TransportSize::Tod => 0x0A,
            TransportSize::Time => 0x0B,
            TransportSize::S5Time => 0x0C,
            TransportSize::DtL => 0x0F,
            TransportSize::Counter => 0x1C,
            TransportSize::Timer => 0x1D,
        }
    }

    pub open spec fn from_code(v: u8) -> Result<TransportSize, ProtoError> {
        if v == 0x01 {
            Ok(TransportSize::Bit)
        } else if v == 0x02 {
            Ok(TransportSize::Byte)
        } else if v == 0x03 {
            Ok(TransportSize::Char)
        } else if v == 0x04 {
            Ok(TransportSize::Word)
        } else if v == 0x05 {
            Ok(TransportSize::Int)
        } else if v == 0x06 {
            Ok(TransportSize::DWord)
        } else if v == 0x07 {
            Ok(TransportSize::DInt)
        } else if v == 0x08 {
            Ok(TransportSize::Real)
        } else if v == 0x09 {
            Ok(TransportSize::Date)
        } else if v == 0x0A {
            Ok(TransportSize::Tod)
        } else if v == 0x0B {
            Ok(TransportSize::Time)
        } else if v == 0x0C {
            Ok(TransportSize::S5Time)
        } else if v == 0x0F {
            Ok(TransportSize::DtL)
        } else if v == 0x1C {
            Ok(TransportSize::Counter)
        } else if v == 0x1D {
            Ok(TransportSize::Timer)
        } else {
            Err(ProtoError::UnsupportedTransportSize(v))
        }
    }

    /// The transport size with wire code `v`; any other code is refused.
    pub fn try_from(v: u8) -> (r: Result<TransportSize, ProtoError>)
        ensures
            r == Self::from_code(v),
    {
        match v {
            0x01 => Ok(TransportSize::Bit),
            0x02 => Ok(TransportSize::Byte),
            0x03 => Ok(TransportSize::Char),
            0x04 => Ok(TransportSize::Word),
            0x05 => Ok(TransportSize::Int),
            0x06 => Ok(TransportSize::DWord),
            0x07 => Ok(TransportSize::DInt),
            0x08 => Ok(TransportSize::Real),
            0x09 => Ok(TransportSize::Date),
            0x0A => Ok(TransportSize::Tod),
            0x0B => Ok(TransportSize::Time),
            0x0C => Ok(TransportSize::S5Time),
            0x0F => Ok(TransportSize::DtL),
            0x1C => Ok(TransportSize::Counter),
            0x1D => Ok(TransportSize::Timer),
            _ => Err(ProtoError::UnsupportedTransportSize(v)),
        }
    }
}

/// Every area and transport size is read back from its own wire code.
pub proof fn lemma_codes_roundtrip(a: Area, t: TransportSize, p: PduType)
    ensures
        Area::from_code(a.code()) == Ok::<Area, ProtoError>(a),
        TransportSize::from_code(t.code()) == Ok::<TransportSize, ProtoError>(t),
        PduType::from_code(p.code()) == Ok::<PduType, ProtoError>(p),
{
}

/// The S7 PDU header; `error_class` and `error_code` travel only in Ack and AckData PDUs.
#[derive(Debug, Clone, Copy, PartialEq, Eq, Structural)]
pub struct S7Header {
    pub pdu_type: PduType,
    pub reserved: u16,
    pub pdu_ref: u16,
    pub param_len: u16,
    pub data_len: u16,
    pub error_class: Option<u8>,
    pub error_code: Option<u8>,
}

/// The wire bytes of a header: the error bytes are written when both are present.
pub open spec fn s7_header_bytes(h: S7Header) -> Seq<u8> {
    seq![S7_MAGIC, h.pdu_type.code()] + be16_bytes(h.reserved) + be16_bytes(h.pdu_ref)
        + be16_bytes(h.param_len) + be16_bytes(h.data_len) + match (h.error_class, h.error_code) {
        (Some(ec), Some(ecd)) => seq![ec, ecd],
        _ => Seq::<u8>::empty(),
    }
}

/// What decoding `s` gives: the header and the number of bytes consumed.
pub open spec fn s7_header_decode_spec(s: Seq<u8>) -> Result<(S7Header, int), ProtoError> {
    if s.len() < 10 {
        Err(ProtoError::BufferTooShort { need: 10, have: s.len() as usize })
    } else if s[0] != S7_MAGIC {
        Err(ProtoError::InvalidMagic { expected: S7_MAGIC, got: s[0] })
    } else {
        match PduType::from_code(s[1]) {
            Err(e) => Err(e),
            Ok(t) => {
                let with_err = (t == PduType::Ack || t == PduType::AckData) && s.len() >= 12;
                Ok(
                    (
                        S7Header {
                            pdu_type: t,
                            reserved: be16_at(s, 2),
                            pdu_ref: be16_at(s, 4),
                            param_len: be16_at(s, 6),
                            data_len: be16_at(s, 8),
                            error_class: if with_err {
                                Some(s[10])
                            } else {
                                None
                            },
                            error_code: if with_err {
                                Some(s[11])
                            } else {
                                None
                            },
                        },
                        if with_err {
                            12
                        } else {
                            10
                        },
                    ),
                )
            },
        }
    }
}

impl S7Header {
    /// Appends the wire bytes of the header to `buf`.
    pub fn encode(&self, buf: &mut Vec<u8>)
        ensures
            final(buf)@ == old(buf)@ + s7_header_bytes(*self),
    {
        buf.push(S7_MAGIC);
        buf.push(self.pdu_type.as_u8());
        push_be16(buf, self.reserved);
        push_be16(buf, self.pdu_ref);
        push_be16(buf, self.param_len);
        push_be16(buf, self.data_len);
        match (self.error_class, self.error_code) {
            (Some(ec), Some(ecd)) => {
                buf.push(ec);
                buf.push(ecd);
            },
            _ => {},
        }
        assert(final(buf)@ =~= old(buf)@ + s7_header_bytes(*self));
    }

    /// Decodes a header from the front of `buf`; returns it with the number of bytes used.
    pub fn decode(buf: &[u8]) -> (r: Result<(S7Header, usize), ProtoError>)
        ensures
            match s7_header_decode_spec(buf@) {
                Ok((h, n)) => r == Ok::<(S7Header, usize), ProtoError>((h, n as usize)),
                Err(e) => r == Err::<(S7Header, usize), ProtoError>(e),
            },
    {
        if buf.len() < 10 {
            return Err(ProtoError::BufferTooShort { need: 10, have: buf.len() });
        }
        if buf[0] != S7_MAGIC {
            return Err(ProtoError::InvalidMagic { expected: S7_MAGIC, got: buf[0] });
        }
        let pdu_type = match PduType::try_from(buf[1]) {
            Ok(t) => t,
            Err(e) => return Err(e),
        };
        let reserved = read_be16(buf, 2);
        let pdu_ref = read_be16(buf, 4);
        let param_len = read_be16(buf, 6);
        let data_len = read_be16(buf, 8);
        let with_err = (pdu_type == PduType::Ack || pdu_type == PduType::AckData) && buf.len()
            >= 12;
        let (error_class, error_code, used) = if with_err {
            (Some(buf[10]), Some(buf[11]), 12usize)
        } else {
            (None, None, 10usize)
        };
        Ok(
            (
                S7Header {
                    pdu_type,
                    reserved,
                    pdu_ref,
                    param_len,
                    data_len,
                    error_class,
                    error_code,
                },
                used,
            ),
        )
    }
}

/// A header whose error bytes are present exactly when its PDU type is Ack or AckData.
pub open spec fn header_well_formed(h: S7Header) -> bool {
    if h.pdu_type == PduType::Ack || h.pdu_type == PduType::AckData {
        h.error_class is Some && h.error_code is Some
    } else {
        h.error_class is None && h.error_code is None
    }
}

/// Decoding the bytes of a well-formed header gives it back, whatever follows it.
pub proof fn lemma_s7_header_roundtrip(h: S7Header, rest: Seq<u8>)
    requires
        header_well_formed(h),
    ensures
        s7_header_decode_spec(s7_header_bytes(h) + rest) == Ok::<(S7Header, int), ProtoError>(
            (h, s7_header_bytes(h).len() as int),
        ),
{
    let s = s7_header_bytes(h) + rest;
    lemma_be16_roundtrip(h.reserved);
    lemma_be16_roundtrip(h.pdu_ref);
    lemma_be16_roundtrip(h.param_len);
    lemma_be16_roundtrip(h.data_len);
    assert(be16_at(s, 2) == be16_at(be16_bytes(h.reserved), 0));
    assert(be16_at(s, 4) == be16_at(be16_bytes(h.pdu_ref), 0));
    assert(be16_at(s, 6) == be16_at(be16_bytes(h.param_len), 0));
    assert(be16_at(s, 8) == be16_at(be16_bytes(h.data_len), 0));
    lemma_codes_roundtrip(Area::DataBlock, TransportSize::Byte, h.pdu_type);
}

} // verus!
