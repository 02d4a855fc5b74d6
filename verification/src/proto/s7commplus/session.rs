//! S7CommPlus session set-up: the CreateObject request and its response.
use vstd::prelude::*;
use crate::error::ProtoError;
use crate::proto::s7commplus::data::{data_area_bytes, data_area_decode_spec, DataArea, DataAreaModel};

verus! {

pub const FC_CREATE_OBJECT: u16 = 0x04CA;
pub const FC_DELETE_OBJECT: u16 = 0x04D4;
pub const FC_GET_MULTI_VAR: u16 = 0x054C;
pub const FC_SET_MULTI_VAR: u16 = 0x0542;
pub const FC_INIT_SSL: u16 = 0x05B3;

pub const OPCODE_REQUEST: u8 = 0x31;
pub const OPCODE_RESPONSE: u8 = 0x32;

/// Size of the zero-filled object description a CreateObject request carries.
pub const CREATE_OBJECT_PAYLOAD_LEN: usize = 64;

/// A request that opens a session.
#[derive(Debug)]
pub struct CreateObjectRequest {
    pub seqnum: u16,
}

/// The data area a CreateObject request with `seqnum` sends.
pub open spec fn create_object_area(seqnum: u16) -> DataAreaModel {
    DataAreaModel {
        opcode: OPCODE_REQUEST,
        function_code: FC_CREATE_OBJECT,
        seqnum,
        session_id: 0,
        transport_flags: 0,
        payload: Seq::new(64, |i: int| 0u8),
    }
}

fn zeros(n: usize) -> (r: Vec<u8>)
    ensures
        r@ == Seq::new(n as nat, |i: int| 0u8),
{
    let mut v: Vec<u8> = Vec::new();
    let mut i: usize = 0;
    while i < n
        invariant
            i <= n,
            v@ == Seq::new(i as nat, |k: int| 0u8),
        decreases n - i,
    {
        v.push(0);
        i = i + 1;
        assert(v@ =~= Seq::new(i as nat, |k: int| 0u8));
    }
    v
}

impl CreateObjectRequest {
    pub fn new(seqnum: u16) -> (r: Self)
        ensures
            r.seqnum == seqnum,
    {
        CreateObjectRequest { seqnum }
    }

    /// Appends the request's data area: opcode request, function CreateObject,
    /// no session yet, and 64 zero bytes of payload.
    pub fn encode(&self, buf: &mut Vec<u8>)
        ensures
            final(buf)@ == old(buf)@ + data_area_bytes(create_object_area(self.seqnum)),
    {
        let d = DataArea {
            opcode: OPCODE_REQUEST,
            function_code: FC_CREATE_OBJECT,
            seqnum: self.seqnum,
            session_id: 0,
            transport_flags: 0,
            payload: zeros(CREATE_OBJECT_PAYLOAD_LEN),
        };
        d.encode(buf);
        assert(d.model() == create_object_area(self.seqnum));
    }
}

/// The PLC's answer to CreateObject: the session it opened and the raw payload.
#[derive(Debug)]
pub struct CreateObjectResponse {
    pub session_id: u32,
    pub raw_payload: Vec<u8>,
}

impl CreateObjectResponse {
    /// Decodes the response data area held in `buf`.
    pub fn decode(buf: &[u8]) -> (r: Result<(CreateObjectResponse, usize), ProtoError>)
        ensures
            match data_area_decode_spec(buf@) {
                Ok(m) => (r matches Ok((c, n)) && c.session_id == m.session_id && c.raw_payload@
                    == m.payload && n == buf@.len()),
                Err(e) => r == Err::<(CreateObjectResponse, usize), ProtoError>(e),
            },
    {
        match DataArea::decode(buf) {
            Ok((d, n)) => Ok((CreateObjectResponse { session_id: d.session_id, raw_payload: d.payload }, n)),
            Err(e) => Err(e),
        }
    }
}

} // verus!
