//! The S7CommPlus data area: a 14-byte fixed part, then the payload.
use vstd::prelude::*;
use crate::error::ProtoError;
use crate::wire::{
    be16_at, be16_bytes, be32_at, be32_bytes, copy_range, lemma_be16_roundtrip,
    lemma_be32_roundtrip, push_be16, push_be32, push_slice, read_be16, read_be32,
};

verus! {

pub const FIXED_LEN: usize = 14;

/// One data area.
#[derive(Debug, Clone)]
pub struct DataArea {
    pub opcode: u8,
    pub function_code: u16,
    pub seqnum: u16,
    pub session_id: u32,
    pub transport_flags: u8,
    pub payload: Vec<u8>,
}

/// The fixed fields of a data area, as plain values.
pub struct DataAreaModel {
    pub opcode: u8,
    pub function_code: u16,
    pub seqnum: u16,
    pub session_id: u32,
    pub transport_flags: u8,
    pub payload: Seq<u8>,
}

impl DataArea {
    pub open spec fn model(&self) -> DataAreaModel {
        DataAreaModel {
            opcode: self.opcode,
            function_code: self.function_code,
            seqnum: self.seqnum,
            session_id: self.session_id,
            transport_flags: self.transport_flags,
            payload: self.payload@,
        }
    }
}

/// The wire bytes of a data area.
pub open spec fn data_area_bytes(d: DataAreaModel) -> Seq<u8> {
    seq![d.opcode] + be16_bytes(0) + be16_bytes(d.function_code) + be16_bytes(0) + be16_bytes(
        d.seqnum,
    ) + be32_bytes(d.session_id) + seq![d.transport_flags] + d.payload
}

/// What decoding a data area from `s` gives; the payload is everything after
/// the fixed part.
pub open spec fn data_area_decode_spec(s: Seq<u8>) -> Result<DataAreaModel, ProtoError> {
    if s.len() < 14 {
        Err(ProtoError::BufferTooShort { need: 14, have: s.len() as usize })
    } else {
        Ok(
            DataAreaModel {
                opcode: s[0],
                function_code: be16_at(s, 3),
                seqnum: be16_at(s, 7),
                session_id: be32_at(s, 9),
                transport_flags: s[13],
                payload: s.subrange(14, s.len() as int),
            },
        )
    }
}

impl DataArea {
    /// Appends the wire bytes of the data area.
    pub fn encode(&self, buf: &mut Vec<u8>)
        ensures
            final(buf)@ == old(buf)@ + data_area_bytes(self.model()),
    {
        buf.push(self.opcode);
        push_be16(buf, 0);
        push_be16(buf, self.function_code);
        push_be16(buf, 0);
        push_be16(buf, self.seqnum);
        push_be32(buf, self.session_id);
        buf.push(self.transport_flags);
        push_slice(buf, self.payload.as_slice());
        assert(final(buf)@ =~= old(buf)@ + data_area_bytes(self.model()));
    }

    /// Decodes a data area from `buf`; the payload takes all the bytes after the
    /// fixed part, so the whole buffer is consumed.
    pub fn decode(buf: &[u8]) -> (r: Result<(DataArea, usize), ProtoError>)
        ensures
            match data_area_decode_spec(buf@) {
                Ok(m) => (r matches Ok((d, n)) && d.model() == m && n == buf@.len()),
                Err(e) => r == Err::<(DataArea, usize), ProtoError>(e),
            },
    {
        if buf.len() < FIXED_LEN {
            return Err(ProtoError::BufferTooShort { need: FIXED_LEN, have: buf.len() });
        }
        let payload = copy_range(buf, FIXED_LEN, buf.len());
        let d = DataArea {
            opcode: buf[0],
            function_code: read_be16(buf, 3),
            seqnum: read_be16(buf, 7),
            session_id: read_be32(buf, 9),
            transport_flags: buf[13],
            payload,
        };
        Ok((d, buf.len()))
    }
}

/// Decoding the bytes of a data area gives back every field.
pub proof fn lemma_data_area_roundtrip(d: DataAreaModel)
    ensures
        data_area_decode_spec(data_area_bytes(d)) == Ok::<DataAreaModel, ProtoError>(d),
{
    let s = data_area_bytes(d);
    lemma_be16_roundtrip(d.function_code);
    lemma_be16_roundtrip(d.seqnum);
    lemma_be32_roundtrip(d.session_id);
    assert(be16_at(s, 3) == be16_at(be16_bytes(d.function_code), 0));
    assert(be16_at(s, 7) == be16_at(be16_bytes(d.seqnum), 0));
    assert(be32_at(s, 9) == be32_at(be32_bytes(d.session_id), 0));
    assert(s.subrange(14, s.len() as int) =~= d.payload);
}

} // verus!
