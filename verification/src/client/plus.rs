//! The S7CommPlus client's decisions: the session it keeps, the frames it
//! sends for each request, and what it reads from the answers.
use vstd::prelude::*;
use crate::error::{Error, ProtoError};
use crate::proto::s7commplus::data::{data_area_bytes, data_area_decode_spec, DataArea, DataAreaModel};
use crate::proto::s7commplus::frame::{plus_frame_bytes, plus_frame_decode_spec, S7PlusFrame, Version};
use crate::proto::s7commplus::multivar::{
    get_var_area, get_var_response_spec, set_var_area, GetVarRequest, GetVarResponse,
    SetVarRequest,
};
use crate::proto::s7commplus::session::{
    create_object_area, CreateObjectRequest, CreateObjectResponse, FC_DELETE_OBJECT,
    OPCODE_REQUEST,
};
use crate::proto::tpkt::{tpkt_bytes, TpktFrame};
use crate::wire::{be16_at, copy_range, read_be16};

verus! {

/// The state of an S7CommPlus session: its identifier, the sequence number of
/// the next request, and the protocol version.
#[derive(Debug, Clone, Copy, PartialEq, Eq, Structural)]
pub struct PlusConnection {
    pub session_id: u32,
    pub seqnum: u16,
    pub version: Version,
}

/// One DB variable: DB number, byte offset and length.
#[derive(Debug, Clone, Copy, PartialEq, Eq, Structural)]
pub struct DbVarSpec {
    pub db: u16,
    pub offset: u32,
    pub length: u16,
}

/// The CRC a DB variable is addressed with.
pub const DB_VAR_CRC: u32 = 0x48;

/// The (CRC, LID) pair that addresses a DB variable: the LID holds 0x84 in its
/// top byte, the DB number from bit 12 on, and the low 12 bits of the offset.
pub fn db_lid(db: u16, byte_offset: u32) -> (r: (u32, u32))
    ensures
        r.0 == DB_VAR_CRC,
        r.1 == 0x8400_0000u32 | ((db as u32) << 12u32) | (byte_offset & 0xFFFu32),
        db < 0x4000 ==> r.1 == 0x8400_0000 + (db as int) * 4096 + byte_offset % 4096,
{
    let lid = 0x8400_0000u32 | ((db as u32) << 12u32) | (byte_offset & 0xFFF);
    proof {
        let d = db as u32;
        let o = byte_offset;
        assert(d << 12u32 == d * 4096) by (bit_vector)
            requires
                d < 0x10000,
        ;
        assert(o & 0xFFFu32 == o % 4096 && o % 4096 < 4096) by (bit_vector);
        let hi = d << 12u32;
        let lo = o & 0xFFFu32;
        assert(hi & 0xFFFu32 == 0) by (bit_vector)
            requires
                hi == d << 12u32,
        ;
        if db < 0x4000 {
            assert(0x8400_0000u32 | hi | lo == 0x8400_0000u32 + hi + lo) by (bit_vector)
                requires
                    hi & 0xFFFu32 == 0,
                    hi < 0x0400_0000,
                    lo < 4096,
            ;
        }
    }
    (DB_VAR_CRC, lid)
}

/// The bytes sent for S7CommPlus data: a frame of the version inside a TPKT frame.
pub open spec fn plus_request_bytes(version: Version, data: Seq<u8>) -> Seq<u8> {
    tpkt_bytes(plus_frame_bytes(version, data))
}

/// The text of the error for framing `n` data bytes that do not fit: too long
/// for an S7CommPlus frame, or, framed, too long for a TPKT frame.
pub open spec fn framing_error_text(n: nat) -> Seq<char> {
    if n > u16::MAX {
        crate::proto::s7commplus::frame::data_too_long_text(n)
    } else {
        crate::proto::tpkt::frame_too_large_text(n + 12)
    }
}

/// Frames S7CommPlus data for sending; data that does not fit a TPKT frame
/// (more than 65523 bytes) is refused.
pub fn frame_plus(version: Version, data: &[u8]) -> (r: Result<Vec<u8>, Error>)
    ensures
        data@.len() + 12 <= u16::MAX ==> (r matches Ok(v) && v@ == plus_request_bytes(
            version,
            data@,
        )),
        data@.len() + 12 > u16::MAX ==> (r matches Err(Error::Proto(ProtoError::EncodingFailed(m)))
            && m@ == framing_error_text(data@.len())),
{
    let frame = S7PlusFrame { version, data: copy_range(data, 0, data.len()) };
    assert(frame.data@ =~= data@);
    let mut fb: Vec<u8> = Vec::new();
    match frame.encode(&mut fb) {
        Ok(()) => {},
        Err(e) => return Err(Error::Proto(e)),
    }
    assert(fb@ =~= plus_frame_bytes(version, data@));
    let tpkt = TpktFrame { payload: fb };
    let mut tb: Vec<u8> = Vec::new();
    match tpkt.encode(&mut tb) {
        Ok(()) => {},
        Err(e) => return Err(Error::Proto(e)),
    }
    assert(tb@ =~= plus_request_bytes(version, data@));
    Ok(tb)
}

/// The payload length announced by a received TPKT header (its first 4 bytes),
/// 0 when it announces under 4 bytes.
pub fn plus_payload_len(hdr: &[u8]) -> (r: usize)
    requires
        hdr@.len() >= 4,
    ensures
        r == if be16_at(hdr@, 2) >= 4 {
            be16_at(hdr@, 2) - 4
        } else {
            0
        },
{
    let total = read_be16(hdr, 2) as usize;
    if total >= 4 {
        total - 4
    } else {
        0
    }
}

/// Reads the data of the S7CommPlus frame at the front of a TPKT payload.
pub fn plus_reply_data(payload: &[u8]) -> (r: Result<Vec<u8>, Error>)
    ensures
        match plus_frame_decode_spec(payload@) {
            Ok((_, d, _)) => r matches Ok(v) && v@ == d,
            Err(e) => r matches Err(Error::Proto(e2)) && e2 == e,
        },
{
    match S7PlusFrame::decode(payload) {
        Ok((f, _)) => Ok(f.data),
        Err(e) => Err(Error::Proto(e)),
    }
}

/// The frame that opens a session: a CreateObject request with sequence number
/// 1 in a version 1 frame.
pub fn create_object_frame() -> (r: Vec<u8>)
    ensures
        r@ == plus_request_bytes(Version::V1, data_area_bytes(create_object_area(1))),
{
    let req = CreateObjectRequest::new(1);
    let mut da: Vec<u8> = Vec::new();
    req.encode(&mut da);
    assert(da@ =~= data_area_bytes(create_object_area(1)));
    match frame_plus(Version::V1, da.as_slice()) {
        Ok(v) => v,
        Err(_) => Vec::new(),
    }
}

/// The session an answer to CreateObject opens: its session identifier, the
/// frame's version, and sequence number 2 for the next request.
pub open spec fn opened_session(payload: Seq<u8>) -> Result<PlusConnection, ProtoError> {
    match plus_frame_decode_spec(payload) {
        Err(e) => Err(e),
        Ok((v, d, _)) => match data_area_decode_spec(d) {
            Err(e) => Err(e),
            Ok(m) => Ok(PlusConnection { session_id: m.session_id, seqnum: 2, version: v }),
        },
    }
}

/// Reads the session from the answer to CreateObject (a TPKT payload).
pub fn plus_connection_from(payload: &[u8]) -> (r: Result<PlusConnection, Error>)
    ensures
        match opened_session(payload@) {
            Ok(c) => r == Ok::<PlusConnection, Error>(c),
            Err(e) => r matches Err(Error::Proto(e2)) && e2 == e,
        },
{
    let frame = match S7PlusFrame::decode(payload) {
        Ok((f, _)) => f,
        Err(e) => return Err(Error::Proto(e)),
    };
    match CreateObjectResponse::decode(frame.data.as_slice()) {
        Ok((resp, _)) => Ok(PlusConnection { session_id: resp.session_id, seqnum: 2, version: frame.version }),
        Err(e) => Err(Error::Proto(e)),
    }
}

/// Takes the session's next sequence number, which then advances by one
/// (wrapping after 65535).
fn take_seqnum(conn: &mut PlusConnection) -> (r: u16)
    ensures
        r == old(conn).seqnum,
        final(conn).seqnum == (if old(conn).seqnum == u16::MAX { 0 } else { old(conn).seqnum + 1 }),
        final(conn).session_id == old(conn).session_id,
        final(conn).version == old(conn).version,
{
    let s = conn.seqnum;
    conn.seqnum = if s == u16::MAX {
        0
    } else {
        s + 1
    };
    s
}

/// The session after one request: the sequence number advanced by one, wrapping.
pub open spec fn advanced(c: PlusConnection) -> PlusConnection {
    PlusConnection {
        seqnum: if c.seqnum == u16::MAX {
            0
        } else {
            (c.seqnum + 1) as u16
        },
        ..c
    }
}

/// The frame that reads a DB variable, sent with the session's next sequence
/// number.
pub fn db_read_request(conn: &mut PlusConnection, db: u16, start: u32) -> (r: Vec<u8>)
    ensures
        *final(conn) == advanced(*old(conn)),
        ({
            let (crc, lid) = (
                DB_VAR_CRC,
                (0x8400_0000u32 | ((db as u32) << 12u32) | (start & 0xFFFu32)) as u32,
            );
            r@ == plus_request_bytes(
                old(conn).version,
                data_area_bytes(get_var_area(old(conn).seqnum, old(conn).session_id, crc, lid)),
            )
        }),
{
    let seqnum = take_seqnum(conn);
    let (crc, lid) = db_lid(db, start);
    let req = GetVarRequest { seqnum, session_id: conn.session_id, crc, lid };
    let mut da: Vec<u8> = Vec::new();
    req.encode(&mut da);
    assert(da@ =~= data_area_bytes(get_var_area(seqnum, conn.session_id, crc, lid)));
    match frame_plus(conn.version, da.as_slice()) {
        Ok(v) => v,
        Err(_) => Vec::new(),
    }
}

/// What reading a DB variable of `length` bytes gives from the answer's data:
/// the returned value, cut to `length` bytes when it is longer.
pub open spec fn read_value(data: Seq<u8>, length: u16) -> Result<Seq<u8>, ProtoError> {
    match get_var_response_spec(data) {
        Err(e) => Err(e),
        Ok((_, v)) => Ok(
            if v.len() >= length {
                v.subrange(0, length as int)
            } else {
                v
            },
        ),
    }
}

/// Reads the value of a DB variable of `length` bytes from the answer's data.
pub fn db_read_value(data: &[u8], length: u16) -> (r: Result<Vec<u8>, Error>)
    ensures
        match read_value(data@, length) {
            Ok(v) => r matches Ok(w) && w@ == v,
            Err(e) => r matches Err(Error::Proto(e2)) && e2 == e,
        },
{
    match GetVarResponse::decode(data) {
        Err(e) => Err(Error::Proto(e)),
        Ok((resp, _)) => {
            let len = length as usize;
            if resp.value.len() >= len {
                Ok(copy_range(resp.value.as_slice(), 0, len))
            } else {
                Ok(resp.value)
            }
        },
    }
}

/// The frame that writes `data` to a DB variable, sent with the session's next
/// sequence number; data too long for a frame is refused.
pub fn db_write_request(conn: &mut PlusConnection, db: u16, start: u32, data: &[u8]) -> (r: Result<
    Vec<u8>,
    Error,
>)
    ensures
        *final(conn) == advanced(*old(conn)),
        ({
            let area = set_var_area(
                old(conn).seqnum,
                old(conn).session_id,
                DB_VAR_CRC,
                (0x8400_0000u32 | ((db as u32) << 12u32) | (start & 0xFFFu32)) as u32,
                data@,
            );
            &&& data_area_bytes(area).len() + 12 <= u16::MAX ==> (r matches Ok(v) && v@
                == plus_request_bytes(old(conn).version, data_area_bytes(area)))
            &&& data_area_bytes(area).len() + 12 > u16::MAX ==> (r matches Err(
                Error::Proto(ProtoError::EncodingFailed(m)),
            ) && m@ == framing_error_text(data_area_bytes(area).len()))
        }),
{
    let seqnum = take_seqnum(conn);
    let (crc, lid) = db_lid(db, start);
    let req = SetVarRequest {
        seqnum,
        session_id: conn.session_id,
        crc,
        lid,
        value: copy_range(data, 0, data.len()),
    };
    assert(req.value@ =~= data@);
    let mut da: Vec<u8> = Vec::new();
    req.encode(&mut da);
    assert(da@ =~= data_area_bytes(set_var_area(seqnum, conn.session_id, crc, lid, data@)));
    frame_plus(conn.version, da.as_slice())
}

/// The frame that keeps a session alive: an empty keep-alive frame.
pub fn keepalive_frame() -> (r: Vec<u8>)
    ensures
        r@ == plus_request_bytes(Version::KeepAlive, Seq::empty()),
{
    let empty: Vec<u8> = Vec::new();
    match frame_plus(Version::KeepAlive, empty.as_slice()) {
        Ok(v) => v,
        Err(_) => Vec::new(),
    }
}

/// The data area that closes a session.
pub open spec fn delete_object_area(seqnum: u16, session_id: u32) -> DataAreaModel {
    DataAreaModel {
        opcode: OPCODE_REQUEST,
        function_code: FC_DELETE_OBJECT,
        seqnum,
        session_id,
        transport_flags: 0,
        payload: Seq::empty(),
    }
}

/// The frame that closes the session, sent with its next sequence number.
pub fn delete_object_request(conn: &mut PlusConnection) -> (r: Vec<u8>)
    ensures
        *final(conn) == advanced(*old(conn)),
        r@ == plus_request_bytes(
            old(conn).version,
            data_area_bytes(delete_object_area(old(conn).seqnum, old(conn).session_id)),
        ),
{
    let seqnum = take_seqnum(conn);
    let da = DataArea {
        opcode: OPCODE_REQUEST,
        function_code: FC_DELETE_OBJECT,
        seqnum,
        session_id: conn.session_id,
        transport_flags: 0,
        payload: Vec::new(),
    };
    let mut buf: Vec<u8> = Vec::new();
    da.encode(&mut buf);
    assert(da.model() == delete_object_area(seqnum, conn.session_id));
    assert(buf@ =~= data_area_bytes(delete_object_area(seqnum, conn.session_id)));
    match frame_plus(conn.version, buf.as_slice()) {
        Ok(v) => v,
        Err(_) => Vec::new(),
    }
}

} // verus!
