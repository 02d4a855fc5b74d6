//! S7CommPlus single-variable read and write requests.
use vstd::prelude::*;
use crate::error::ProtoError;
use crate::proto::s7commplus::data::{data_area_bytes, data_area_decode_spec, DataArea, DataAreaModel};
use crate::proto::s7commplus::session::{FC_GET_MULTI_VAR, FC_SET_MULTI_VAR, OPCODE_REQUEST};
use crate::wire::{be16_at, be16_bytes, be32_bytes, copy_range, push_be16, push_be32, push_slice, read_be16};

verus! {

/// A request that reads one variable, named by its CRC and LID.
#[derive(Debug)]
pub struct GetVarRequest {
    pub seqnum: u16,
    pub session_id: u32,
    pub crc: u32,
    pub lid: u32,
}

/// The data area of a read request.
pub open spec fn get_var_area(seqnum: u16, session_id: u32, crc: u32, lid: u32) -> DataAreaModel {
    DataAreaModel {
        opcode: OPCODE_REQUEST,
        function_code: FC_GET_MULTI_VAR,
        seqnum,
        session_id,
        transport_flags: 0,
        payload: seq![0x01u8] + be32_bytes(crc) + be32_bytes(lid),
    }
}

impl GetVarRequest {
    /// Appends the request's data area: one variable, its CRC and its LID.
    pub fn encode(&self, buf: &mut Vec<u8>)
        ensures
            final(buf)@ == old(buf)@ + data_area_bytes(
                get_var_area(self.seqnum, self.session_id, self.crc, self.lid),
            ),
    {
        let mut payload: Vec<u8> = Vec::new();
        payload.push(0x01);
        push_be32(&mut payload, self.crc);
        push_be32(&mut payload, self.lid);
        let d = DataArea {
            opcode: OPCODE_REQUEST,
            function_code: FC_GET_MULTI_VAR,
            seqnum: self.seqnum,
            session_id: self.session_id,
            transport_flags: 0,
            payload,
        };
        d.encode(buf);
        assert(d.model().payload =~= get_var_area(self.seqnum, self.session_id, self.crc, self.lid).payload);
    }
}

/// The answer to a read: a return code and the value's bytes.
#[derive(Debug)]
pub struct GetVarResponse {
    pub return_code: u8,
    pub value: Vec<u8>,
}

/// What decoding a read answer from `s` gives: return code and value.
pub open spec fn get_var_response_spec(s: Seq<u8>) -> Result<(u8, Seq<u8>), ProtoError> {
    match data_area_decode_spec(s) {
        Err(e) => Err(e),
        Ok(m) => {
            let p = m.payload;
            if p.len() == 0 {
                Err(ProtoError::BufferTooShort { need: 3, have: 0 })
            } else if p.len() - 1 < 2 {
                Err(ProtoError::BufferTooShort { need: 2, have: (p.len() - 1) as usize })
            } else if p.len() - 3 < be16_at(p, 1) as int {
                Err(
                    ProtoError::BufferTooShort {
                        need: be16_at(p, 1) as usize,
                        have: (p.len() - 3) as usize,
                    },
                )
            } else {
                Ok((p[0], p.subrange(3, 3 + be16_at(p, 1) as int)))
            }
        },
    }
}

impl GetVarResponse {
    /// Decodes a read answer held in `buf`.
    pub fn decode(buf: &[u8]) -> (r: Result<(GetVarResponse, usize), ProtoError>)
        ensures
            match get_var_response_spec(buf@) {
                Ok((c, v)) => (r matches Ok((g, n)) && g.return_code == c && g.value@ == v && n
                    == buf@.len()),
                Err(e) => r == Err::<(GetVarResponse, usize), ProtoError>(e),
            },
    {
        let (d, n) = match DataArea::decode(buf) {
            Ok(x) => x,
            Err(e) => {
                return Err(e);
            },
        };
        let p = d.payload.as_slice();
        if p.len() == 0 {
            return Err(ProtoError::BufferTooShort { need: 3, have: 0 });
        }
        let return_code = p[0];
        if p.len() - 1 < 2 {
            return Err(ProtoError::BufferTooShort { need: 2, have: p.len() - 1 });
        }
        let data_len = read_be16(p, 1) as usize;
        if p.len() - 3 < data_len {
            return Err(ProtoError::BufferTooShort { need: data_len, have: p.len() - 3 });
        }
        let value = copy_range(p, 3, 3 + data_len);
        Ok((GetVarResponse { return_code, value }, n))
    }
}

/// A request that writes one variable.
#[derive(Debug)]
pub struct SetVarRequest {
    pub seqnum: u16,
    pub session_id: u32,
    pub crc: u32,
    pub lid: u32,
    pub value: Vec<u8>,
}

/// The data area of a write request; the length field holds the value's length
/// modulo 65536.
pub open spec fn set_var_area(
    seqnum: u16,
    session_id: u32,
    crc: u32,
    lid: u32,
    value: Seq<u8>,
) -> DataAreaModel {
    DataAreaModel {
        opcode: OPCODE_REQUEST,
        function_code: FC_SET_MULTI_VAR,
        seqnum,
        session_id,
        transport_flags: 0,
        payload: seq![0x01u8] + be32_bytes(crc) + be32_bytes(lid) + be16_bytes(
            (value.len() % 65536) as u16,
        ) + value,
    }
}

impl SetVarRequest {
    /// Appends the request's data area: one variable, its CRC, LID, length and value.
    pub fn encode(&self, buf: &mut Vec<u8>)
        ensures
            final(buf)@ == old(buf)@ + data_area_bytes(
                set_var_area(self.seqnum, self.session_id, self.crc, self.lid, self.value@),
            ),
    {
        let mut payload: Vec<u8> = Vec::new();
        payload.push(0x01);
        push_be32(&mut payload, self.crc);
        push_be32(&mut payload, self.lid);
        push_be16(&mut payload, (self.value.len() % 65536) as u16);
        push_slice(&mut payload, self.value.as_slice());
        let d = DataArea {
            opcode: OPCODE_REQUEST,
            function_code: FC_SET_MULTI_VAR,
            seqnum: self.seqnum,
            session_id: self.session_id,
            transport_flags: 0,
            payload,
        };
        d.encode(buf);
        assert(d.model().payload =~= set_var_area(
            self.seqnum,
            self.session_id,
            self.crc,
            self.lid,
            self.value@,
        ).payload);
    }
}

} // verus!
