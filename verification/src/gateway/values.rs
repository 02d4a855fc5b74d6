//! Node values of the gateway and their PLC bytes, node data types, access
//! levels and security settings.
use vstd::prelude::*;
use vstd::utf8::encode_utf8;
use crate::error::text;
use crate::gateway::config::OpcSecurityConfig;
use crate::gateway::error::Error;
use crate::proto::s7::header::TransportSize;
use crate::wire::{
    be16_at, be16_bytes, be32_at, be32_bytes, lemma_be16_roundtrip, lemma_be32_roundtrip, push_be16,
    push_be32, read_be16, read_be32,
};

verus! {

/// The value of a node, as OPC-UA types it. A 32-bit float is held as its
/// IEEE 754 bit pattern, so that no float arithmetic is needed to move it.
#[derive(Debug, Clone, PartialEq)]
pub enum Variant {
    Empty,
    Boolean(bool),
    Byte(u8),
    Int16(i16),
    UInt16(u16),
    Int32(i32),
    UInt32(u32),
    Float(u32),
    String(String),
}

/// The byte width of one element of a transport size, for the sizes the gateway reads.
pub open spec fn unit_width(ts: TransportSize) -> Option<nat> {
    match ts {
        TransportSize::Real | TransportSize::DWord | TransportSize::DInt => Some(4),
        TransportSize::Word | TransportSize::Int => Some(2),
        TransportSize::Byte | TransportSize::Bit => Some(1),
        _ => None,
    }
}

/// The number of bytes `count` elements of `ts` take; `None` for a transport
/// size without a known width.
pub fn transport_size_bytes(ts: TransportSize, count: u16) -> (r: Option<usize>)
    ensures
        match unit_width(ts) {
            Some(w) => r == Some((w * count) as usize),
            None => r is None,
        },
{
    let unit: usize = match ts {
        TransportSize::Real | TransportSize::DWord | TransportSize::DInt => 4,
        TransportSize::Word | TransportSize::Int => 2,
        TransportSize::Byte | TransportSize::Bit => 1,
        _ => {
            return None;
        },
    };
    Some(unit * count as usize)
}

/// The node value big-endian PLC bytes stand for under a transport size; `None`
/// when there are too few bytes or the size has no node type.
pub open spec fn variant_of(b: Seq<u8>, ts: TransportSize) -> Option<Variant> {
    match ts {
        TransportSize::Real => if b.len() >= 4 {
            Some(Variant::Float(be32_at(b, 0)))
        } else {
            None
        },
        TransportSize::DInt => if b.len() >= 4 {
            Some(Variant::Int32(be32_at(b, 0) as i32))
        } else {
            None
        },
        TransportSize::DWord => if b.len() >= 4 {
            Some(Variant::UInt32(be32_at(b, 0)))
        } else {
            None
        },
        TransportSize::Word => if b.len() >= 2 {
            Some(Variant::UInt16(be16_at(b, 0)))
        } else {
            None
        },
        TransportSize::Int => if b.len() >= 2 {
            Some(Variant::Int16(be16_at(b, 0) as i16))
        } else {
            None
        },
        TransportSize::Byte => if b.len() >= 1 {
            Some(Variant::Byte(b[0]))
        } else {
            None
        },
        TransportSize::Bit => if b.len() >= 1 {
            Some(Variant::Boolean(b[0] != 0))
        } else {
            None
        },
        _ => None,
    }
}

/// Reads the node value of big-endian PLC bytes under a transport size.
pub fn bytes_to_variant(bytes: &[u8], ts: TransportSize) -> (r: Option<Variant>)
    ensures
        r == variant_of(bytes@, ts),
{
    match ts {
        TransportSize::Real if bytes.len() >= 4 => Some(Variant::Float(read_be32(bytes, 0))),
        TransportSize::DInt if bytes.len() >= 4 => Some(Variant::Int32(read_be32(bytes, 0) as i32)),
        TransportSize::DWord if bytes.len() >= 4 => Some(Variant::UInt32(read_be32(bytes, 0))),
        TransportSize::Word if bytes.len() >= 2 => Some(Variant::UInt16(read_be16(bytes, 0))),
        TransportSize::Int if bytes.len() >= 2 => Some(Variant::Int16(read_be16(bytes, 0) as i16)),
        TransportSize::Byte if bytes.len() >= 1 => Some(Variant::Byte(bytes[0])),
        TransportSize::Bit if bytes.len() >= 1 => Some(Variant::Boolean(bytes[0] != 0)),
        _ => None,
    }
}

/// The big-endian PLC bytes of a node value and the transport size they travel
/// as; `None` for a value without a PLC form.
pub open spec fn bytes_of(v: Variant) -> Option<(Seq<u8>, TransportSize)> {
    match v {
        Variant::Float(f) => Some((be32_bytes(f), TransportSize::Real)),
        Variant::Int32(i) => Some((be32_bytes(i as u32), TransportSize::DInt)),
        Variant::UInt32(u) => Some((be32_bytes(u), TransportSize::DWord)),
        Variant::Int16(i) => Some((be16_bytes(i as u16), TransportSize::Int)),
        Variant::UInt16(u) => Some((be16_bytes(u), TransportSize::Word)),
        Variant::Byte(b) => Some((seq![b], TransportSize::Byte)),
        Variant::Boolean(b) => Some((seq![if b { 1u8 } else { 0u8 }], TransportSize::Bit)),
        _ => None,
    }
}

/// Converts a node value to big-endian PLC bytes, paired with its transport size.
pub fn variant_to_bytes(variant: &Variant) -> (r: Option<(Vec<u8>, TransportSize)>)
    ensures
        match bytes_of(*variant) {
            Some((b, ts)) => r matches Some((v, t)) && v@ == b && t == ts,
            None => r is None,
        },
{
    let mut out: Vec<u8> = Vec::new();
    let ts = match variant {
        Variant::Float(f) => {
            push_be32(&mut out, *f);
            TransportSize::Real
        },
        Variant::Int32(i) => {
            push_be32(&mut out, *i as u32);
            TransportSize::DInt
        },
        Variant::UInt32(u) => {
            push_be32(&mut out, *u);
            TransportSize::DWord
        },
        Variant::Int16(i) => {
            push_be16(&mut out, *i as u16);
            TransportSize::Int
        },
        Variant::UInt16(u) => {
            push_be16(&mut out, *u);
            TransportSize::Word
        },
        Variant::Byte(b) => {
            out.push(*b);
            TransportSize::Byte
        },
        Variant::Boolean(b) => {
            out.push(if *b { 1 } else { 0 });
            TransportSize::Bit
        },
        _ => {
            return None;
        },
    };
    proof {
        let (b, t) = bytes_of(*variant)->Some_0;
        assert(out@ =~= b);
    }
    Some((out, ts))
}

/// The bytes a value is written as read back as that value.
pub proof fn lemma_variant_roundtrip(v: Variant)
    requires
        bytes_of(v) is Some,
    ensures
        variant_of(bytes_of(v)->Some_0.0, bytes_of(v)->Some_0.1) == Some(v),
{
    match v {
        Variant::Float(f) => {
            lemma_be32_roundtrip(f);
        },
        Variant::Int32(i) => {
            lemma_be32_roundtrip(i as u32);
            assert((i as u32) as i32 == i) by (bit_vector);
        },
        Variant::UInt32(u) => {
            lemma_be32_roundtrip(u);
        },
        Variant::Int16(i) => {
            lemma_be16_roundtrip(i as u16);
            assert((i as u16) as i16 == i) by (bit_vector);
        },
        Variant::UInt16(u) => {
            lemma_be16_roundtrip(u);
        },
        _ => {},
    }
}

/// The data type a tag's node is declared with.
#[derive(Debug, Clone, Copy, PartialEq, Eq, Structural)]
pub enum DataType {
    Boolean,
    UInt32,
    Int32,
    Float,
    String,
}

/// The node data type of a transport size: Bit is Boolean; Byte, Word and DWord
/// are UInt32; Int and DInt are Int32; Real is Float; the rest String.
pub fn node_data_type(ts: TransportSize) -> (r: DataType)
    ensures
        r == match ts {
            TransportSize::Bit => DataType::Boolean,
            TransportSize::Byte | TransportSize::Word | TransportSize::DWord => DataType::UInt32,
            TransportSize::Int | TransportSize::DInt => DataType::Int32,
            TransportSize::Real => DataType::Float,
            _ => DataType::String,
        },
{
    match ts {
        TransportSize::Bit => DataType::Boolean,
        TransportSize::Byte | TransportSize::Word | TransportSize::DWord => DataType::UInt32,
        TransportSize::Int | TransportSize::DInt => DataType::Int32,
        TransportSize::Real => DataType::Float,
        _ => DataType::String,
    }
}

/// The OPC-UA access level bit for reading the current value.
pub const CURRENT_READ: u8 = 1;

/// The OPC-UA access level bit for writing the current value.
pub const CURRENT_WRITE: u8 = 2;

/// The access level of a tag's node: read, plus write when the tag is writable.
pub fn node_access_level(writable: bool) -> (r: u8)
    ensures
        r == if writable {
            CURRENT_READ + CURRENT_WRITE
        } else {
            CURRENT_READ as int
        },
{
    if writable {
        CURRENT_READ + CURRENT_WRITE
    } else {
        CURRENT_READ
    }
}

/// An OPC-UA security policy.
#[derive(Debug, Clone, Copy, PartialEq, Eq, Structural)]
pub enum SecurityPolicy {
    /// No security (`None` in OPC-UA).
    Unsecured,
    Basic128Rsa15,
    Basic256,
    Basic256Sha256,
}

/// An OPC-UA message security mode.
#[derive(Debug, Clone, Copy, PartialEq, Eq, Structural)]
pub enum SecurityMode {
    /// No message security (`None` in OPC-UA).
    Unsecured,
    Sign,
    SignAndEncrypt,
}

/// A byte with ASCII capitals made small.
pub open spec fn ascii_lower(b: u8) -> u8 {
    if 0x41 <= b <= 0x5A {
        (b + 32) as u8
    } else {
        b
    }
}

/// `s` equals the lower-case ASCII keyword `kw` once its ASCII capitals are made
/// small. For these keywords this is what comparing the Unicode lower case of the
/// text gives: no non-ASCII character lower-cases to one of their letters.
pub open spec fn matches_keyword(s: Seq<u8>, kw: Seq<u8>) -> bool {
    s.len() == kw.len() && forall|i: int| 0 <= i < s.len() ==> ascii_lower(#[trigger] s[i]) == kw[i]
}

fn keyword_eq(s: &[u8], kw: &[u8]) -> (r: bool)
    ensures
        r == matches_keyword(s@, kw@),
{
    if s.len() != kw.len() {
        return false;
    }
    let mut i: usize = 0;
    while i < s.len()
        invariant
            s@.len() == kw@.len(),
            i <= s@.len(),
            forall|k: int| 0 <= k < i ==> ascii_lower(#[trigger] s@[k]) == kw@[k],
        decreases s.len() - i,
    {
        let b = s[i];
        let low: u8 = if 0x41 <= b && b <= 0x5A {
            b + 32
        } else {
            b
        };
        if low != kw[i] {
            return false;
        }
        i = i + 1;
    }
    true
}

pub open spec fn kw_none() -> Seq<u8> {
    seq![0x6Eu8, 0x6F, 0x6E, 0x65]
}

pub open spec fn kw_basic128() -> Seq<u8> {
    seq![0x62u8, 0x61, 0x73, 0x69, 0x63, 0x31, 0x32, 0x38]
}

pub open spec fn kw_basic256() -> Seq<u8> {
    seq![0x62u8, 0x61, 0x73, 0x69, 0x63, 0x32, 0x35, 0x36]
}

pub open spec fn kw_basic256sha256() -> Seq<u8> {
    seq![0x62u8, 0x61, 0x73, 0x69, 0x63, 0x32, 0x35, 0x36, 0x73, 0x68, 0x61, 0x32, 0x35, 0x36]
}

pub open spec fn kw_sign() -> Seq<u8> {
    seq![0x73u8, 0x69, 0x67, 0x6E]
}

pub open spec fn kw_signandencrypt() -> Seq<u8> {
    seq![
        0x73u8, 0x69, 0x67, 0x6E, 0x61, 0x6E, 0x64, 0x65, 0x6E, 0x63, 0x72, 0x79, 0x70, 0x74,
    ]
}

/// The policy a configured name selects, compared without regard to case.
pub open spec fn policy_of(name: Seq<u8>) -> Option<SecurityPolicy> {
    if matches_keyword(name, kw_none()) {
        Some(SecurityPolicy::Unsecured)
    } else if matches_keyword(name, kw_basic128()) {
        Some(SecurityPolicy::Basic128Rsa15)
    } else if matches_keyword(name, kw_basic256()) {
        Some(SecurityPolicy::Basic256)
    } else if matches_keyword(name, kw_basic256sha256()) {
        Some(SecurityPolicy::Basic256Sha256)
    } else {
        None
    }
}

/// The mode a configured name selects, compared without regard to case.
pub open spec fn mode_of(name: Seq<u8>) -> Option<SecurityMode> {
    if matches_keyword(name, kw_none()) {
        Some(SecurityMode::Unsecured)
    } else if matches_keyword(name, kw_sign()) {
        Some(SecurityMode::Sign)
    } else if matches_keyword(name, kw_signandencrypt()) {
        Some(SecurityMode::SignAndEncrypt)
    } else {
        None
    }
}

/// The message for an unknown policy name.
pub open spec fn bad_policy_text(name: Seq<char>) -> Seq<char> {
    "unsupported security policy: "@ + name
        + ". Use None, Basic128, Basic256, or Basic256Sha256"@
}

/// The message for an unknown mode name.
pub open spec fn bad_mode_text(name: Seq<char>) -> Seq<char> {
    "unsupported security mode: "@ + name + ". Use None, Sign, or SignAndEncrypt"@
}

/// Reads the security settings: the policy (`None`, `Basic128`, `Basic256`,
/// `Basic256Sha256`) and the mode (`None`, `Sign`, `SignAndEncrypt`), in any
/// case. An unknown policy is reported first, then an unknown mode.
pub fn parse_security(sec: &OpcSecurityConfig) -> (r: Result<(SecurityPolicy, SecurityMode), Error>)
    ensures
        match (policy_of(encode_utf8(sec.policy@)), mode_of(encode_utf8(sec.mode@))) {
            (Some(p), Some(m)) => r == Ok::<(SecurityPolicy, SecurityMode), Error>((p, m)),
            (None, _) => r matches Err(Error::Config(msg)) && msg@ == bad_policy_text(sec.policy@),
            (Some(_), None) => r matches Err(Error::Config(msg)) && msg@ == bad_mode_text(
                sec.mode@,
            ),
        },
{
    let pb = sec.policy.as_str().as_bytes();
    let policy = if keyword_eq(pb, &[0x6E, 0x6F, 0x6E, 0x65]) {
        SecurityPolicy::Unsecured
    } else if keyword_eq(pb, &[0x62, 0x61, 0x73, 0x69, 0x63, 0x31, 0x32, 0x38]) {
        SecurityPolicy::Basic128Rsa15
    } else if keyword_eq(pb, &[0x62, 0x61, 0x73, 0x69, 0x63, 0x32, 0x35, 0x36]) {
        SecurityPolicy::Basic256
    } else if keyword_eq(
        pb,
        &[0x62, 0x61, 0x73, 0x69, 0x63, 0x32, 0x35, 0x36, 0x73, 0x68, 0x61, 0x32, 0x35, 0x36],
    ) {
        SecurityPolicy::Basic256Sha256
    } else {
        let mut m = text("unsupported security policy: ");
        m.append(sec.policy.as_str());
        m.append(". Use None, Basic128, Basic256, or Basic256Sha256");
        return Err(Error::Config(m));
    };
    let mb = sec.mode.as_str().as_bytes();
    let mode = if keyword_eq(mb, &[0x6E, 0x6F, 0x6E, 0x65]) {
        SecurityMode::Unsecured
    } else if keyword_eq(mb, &[0x73, 0x69, 0x67, 0x6E]) {
        SecurityMode::Sign
    } else if keyword_eq(
        mb,
        &[0x73, 0x69, 0x67, 0x6E, 0x61, 0x6E, 0x64, 0x65, 0x6E, 0x63, 0x72, 0x79, 0x70, 0x74],
    ) {
        SecurityMode::SignAndEncrypt
    } else {
        let mut m = text("unsupported security mode: ");
        m.append(sec.mode.as_str());
        m.append(". Use None, Sign, or SignAndEncrypt");
        return Err(Error::Config(m));
    };
    Ok((policy, mode))
}

} // verus!
