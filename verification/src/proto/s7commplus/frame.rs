//! S7CommPlus frames: `[0x72][version][len: 2]`, the data, then the same four
//! bytes again as trailer.
use vstd::prelude::*;
use crate::error::ProtoError;
use crate::text::{decimal, numbered_message};
use crate::wire::{be16_at, be16_bytes, copy_range, lemma_be16_roundtrip, push_be16, push_slice, read_be16};

verus! {

pub const MAGIC: u8 = 0x72;
pub const HEADER_LEN: usize = 4;

/// Protocol version byte of an S7CommPlus frame.
#[derive(Debug, Clone, Copy, PartialEq, Eq, Structural)]
pub enum Version {
    V1,
    V2,
    V3,
    KeepAlive,
}

impl Version {
    /// The wire byte of the version.
    pub open spec fn code(self) -> u8 {
        match self {
            Version::V1 => 0x01,
            Version::V2 => 0x02,
            Version::V3 => 0x03,
            Version::KeepAlive => 0xFF,
        }
    }

    /// The version a wire byte names, if any.
    pub open spec fn from_code(v: u8) -> Option<Version> {
        if v == 0x01 {
            Some(Version::V1)
        } else if v == 0x02 {
            Some(Version::V2)
        } else if v == 0x03 {
            Some(Version::V3)
        } else if v == 0xFF {
            Some(Version::KeepAlive)
        } else {
            None
        }
    }

    pub fn as_u8(&self) -> (r: u8)
        ensures
            r == self.code(),
    {
        match self {
            Version::V1 => 0x01,
            Version::V2 => 0x02,
            Version::V3 => 0x03,
            Version::KeepAlive => 0xFF,
        }
    }

    /// The version a wire byte names; any other byte is `InvalidVersion`.
    pub fn try_from(v: u8) -> (r: Result<Version, ProtoError>)
        ensures
            match Version::from_code(v) {
                Some(x) => r == Ok::<Version, ProtoError>(x),
                None => r == Err::<Version, ProtoError>(ProtoError::InvalidVersion(v)),
            },
    {
        match v {
            0x01 => Ok(Version::V1),
            0x02 => Ok(Version::V2),
            0x03 => Ok(Version::V3),
            0xFF => Ok(Version::KeepAlive),
            other => Err(ProtoError::InvalidVersion(other)),
        }
    }
}

/// Every version's wire byte names it again.
pub proof fn lemma_version_codes(x: Version)
    ensures
        Version::from_code(x.code()) == Some(x),
{
}

/// An S7CommPlus frame.
#[derive(Debug, Clone)]
pub struct S7PlusFrame {
    pub version: Version,
    pub data: Vec<u8>,
}

/// The four header (and trailer) bytes of a frame.
pub open spec fn plus_header_bytes(version: Version, len: nat) -> Seq<u8> {
    seq![MAGIC, version.code()] + be16_bytes(len as u16)
}

/// The bytes of a frame of `version` around `data`.
pub open spec fn plus_frame_bytes(version: Version, data: Seq<u8>) -> Seq<u8> {
    plus_header_bytes(version, data.len()) + data + plus_header_bytes(version, data.len())
}

/// What decoding a frame from the front of `s` gives: version, data and the
/// number of bytes consumed.
pub open spec fn plus_frame_decode_spec(s: Seq<u8>) -> Result<(Version, Seq<u8>, int), ProtoError> {
    if s.len() < 4 {
        Err(ProtoError::BufferTooShort { need: 4, have: s.len() as usize })
    } else if s[0] != MAGIC {
        Err(ProtoError::InvalidMagic { expected: MAGIC, got: s[0] })
    } else if Version::from_code(s[1]) is None {
        Err(ProtoError::InvalidVersion(s[1]))
    } else {
        let len = be16_at(s, 2) as int;
        if s.len() - 4 < len {
            Err(ProtoError::BufferTooShort { need: len as usize, have: (s.len() - 4) as usize })
        } else if s.len() - 4 - len < 4 {
            Err(ProtoError::BufferTooShort { need: 4, have: (s.len() - 4 - len) as usize })
        } else if s[4 + len] != MAGIC {
            Err(ProtoError::InvalidMagic { expected: MAGIC, got: s[4 + len] })
        } else if s[5 + len] != s[1] || be16_at(s, 6 + len) as int != len {
            Err(ProtoError::IntegrityFailure)
        } else {
            Ok((Version::from_code(s[1])->0, s.subrange(4, 4 + len), 8 + len))
        }
    }
}

/// The text of the error for `n` data bytes, more than a frame holds.
pub open spec fn data_too_long_text(n: nat) -> Seq<char> {
    "data too long: "@ + decimal(n) + " bytes (max 65535)"@
}

impl S7PlusFrame {
    /// Appends header, data and trailer to `buf`; data longer than 65535 bytes is
    /// refused and leaves `buf` unchanged.
    pub fn encode(&self, buf: &mut Vec<u8>) -> (r: Result<(), ProtoError>)
        ensures
            self.data@.len() <= u16::MAX ==> r is Ok && final(buf)@ == old(buf)@ + plus_frame_bytes(
                self.version,
                self.data@,
            ),
            self.data@.len() > u16::MAX ==> (r matches Err(ProtoError::EncodingFailed(m)) && m@
                == data_too_long_text(self.data@.len())) && final(buf)@
                == old(buf)@,
    {
        let data_len = self.data.len();
        if data_len > 0xFFFF {
            return Err(
                ProtoError::EncodingFailed(
                    numbered_message("data too long: ", data_len as u64, " bytes (max 65535)"),
                ),
            );
        }
        let v = self.version.as_u8();
        let len = data_len as u16;
        buf.push(MAGIC);
        buf.push(v);
        push_be16(buf, len);
        push_slice(buf, self.data.as_slice());
        buf.push(MAGIC);
        buf.push(v);
        push_be16(buf, len);
        assert(final(buf)@ =~= old(buf)@ + plus_frame_bytes(self.version, self.data@));
        Ok(())
    }

    /// Decodes a frame from the front of `buf`; returns it with the number of
    /// bytes used.
    pub fn decode(buf: &[u8]) -> (r: Result<(S7PlusFrame, usize), ProtoError>)
        ensures
            match plus_frame_decode_spec(buf@) {
                Ok((v, d, n)) => (r matches Ok((f, m)) && f.version == v && f.data@ == d && m == n),
                Err(e) => r == Err::<(S7PlusFrame, usize), ProtoError>(e),
            },
    {
        if buf.len() < 4 {
            return Err(ProtoError::BufferTooShort { need: 4, have: buf.len() });
        }
        if buf[0] != MAGIC {
            return Err(ProtoError::InvalidMagic { expected: MAGIC, got: buf[0] });
        }
        let h_version = buf[1];
        let version = match Version::try_from(h_version) {
            Ok(v) => v,
            Err(e) => {
                return Err(e);
            },
        };
        let len = read_be16(buf, 2) as usize;
        if buf.len() - 4 < len {
            return Err(ProtoError::BufferTooShort { need: len, have: buf.len() - 4 });
        }
        let data = copy_range(buf, 4, 4 + len);
        if buf.len() - 4 - len < 4 {
            return Err(ProtoError::BufferTooShort { need: 4, have: buf.len() - 4 - len });
        }
        if buf[4 + len] != MAGIC {
            return Err(ProtoError::InvalidMagic { expected: MAGIC, got: buf[4 + len] });
        }
        if buf[5 + len] != h_version || read_be16(buf, 6 + len) as usize != len {
            return Err(ProtoError::IntegrityFailure);
        }
        Ok((S7PlusFrame { version, data }, 8 + len))
    }
}

/// Decoding the bytes of a frame gives back its version and data, and consumes
/// exactly those bytes, whatever follows them.
pub proof fn lemma_plus_frame_roundtrip(version: Version, data: Seq<u8>, rest: Seq<u8>)
    requires
        data.len() <= u16::MAX,
    ensures
        plus_frame_decode_spec(plus_frame_bytes(version, data) + rest) == Ok::<
            (Version, Seq<u8>, int),
            ProtoError,
        >((version, data, data.len() + 8int)),
{
    let s = plus_frame_bytes(version, data) + rest;
    let l = data.len() as int;
    lemma_be16_roundtrip(data.len() as u16);
    assert(be16_at(s, 2) == be16_at(be16_bytes(data.len() as u16), 0));
    assert(be16_at(s, 6 + l) == be16_at(be16_bytes(data.len() as u16), 0));
    assert(s.subrange(4, 4 + l) =~= data);
    lemma_version_codes(version);
}

} // verus!
