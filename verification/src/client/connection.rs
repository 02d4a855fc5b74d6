//! The client side of connection setup: the COTP connect request, the check of
//! the PLC's confirm, the S7 PDU size negotiation request and the reading of its
//! answer.
use vstd::prelude::*;
use crate::error::{text, Error, ProtoError};
use crate::proto::cotp::{cotp_bytes, cotp_decode_spec, CotpModel, CotpPdu};
use crate::proto::s7::header::{s7_header_bytes, s7_header_decode_spec, PduType, S7Header};
use crate::proto::s7::negotiate::{negotiate_bytes, negotiate_decode_spec, NegotiateRequest, NegotiateResponse};
use crate::proto::tpkt::{tpkt_bytes, TpktFrame};
use crate::types::ConnectParams;
use crate::wire::copy_range;

verus! {

/// An established connection: the PDU size the PLC granted.
#[derive(Debug, Clone, Copy, PartialEq, Eq, Structural)]
pub struct Connection {
    pub pdu_size: u16,
}

/// The COTP connect request a client sends: references 0 and 1, and the
/// destination TSAP of its rack and slot.
pub open spec fn connect_request_model(rack: u8, slot: u8) -> CotpModel {
    CotpModel::ConnectRequest { dst_ref: 0, src_ref: 1, rack, slot }
}

fn frame_of(pdu: &CotpPdu) -> (r: Vec<u8>)
    requires
        cotp_bytes(pdu@).len() + 4 <= u16::MAX,
    ensures
        r@ == tpkt_bytes(cotp_bytes(pdu@)),
{
    let mut body: Vec<u8> = Vec::new();
    pdu.encode(&mut body);
    assert(body@ =~= cotp_bytes(pdu@));
    let frame = TpktFrame { payload: body };
    let mut out: Vec<u8> = Vec::new();
    let _ = frame.encode(&mut out);
    assert(out@ =~= tpkt_bytes(cotp_bytes(pdu@)));
    out
}

/// The frame of the connect request for the rack and slot of `params`.
pub fn connect_request(params: &ConnectParams) -> (r: Vec<u8>)
    ensures
        r@ == tpkt_bytes(cotp_bytes(connect_request_model(params.rack, params.slot))),
{
    let cr = CotpPdu::ConnectRequest { dst_ref: 0x0000, src_ref: 0x0001, rack: params.rack, slot: params.slot };
    frame_of(&cr)
}

/// Why setting up a connection stopped, as plain values.
pub enum SetupFault {
    Proto(ProtoError),
    NegotiationFailed,
    UnexpectedResponse,
    /// The PLC refused the negotiation with this code (error class times 256
    /// plus error code).
    Refused(u32),
}

/// The error reports the fault; a refusal carries the message `negotiate error`.
pub open spec fn reports(e: Error, f: SetupFault) -> bool {
    match f {
        SetupFault::Proto(p) => e == Error::Proto(p),
        SetupFault::NegotiationFailed => e is NegotiationFailed,
        SetupFault::UnexpectedResponse => e is UnexpectedResponse,
        SetupFault::Refused(c) => e matches Error::PlcError { code, message } && code == c
            && message@ == "negotiate error"@,
    }
}

/// Whether the PDU that answers a connect request confirms it.
pub open spec fn confirm_check(cotp: Seq<u8>) -> Result<(), SetupFault> {
    match cotp_decode_spec(cotp) {
        Err(e) => Err(SetupFault::Proto(e)),
        Ok((CotpModel::ConnectConfirm { .. }, _)) => Ok(()),
        Ok(_) => Err(SetupFault::NegotiationFailed),
    }
}

/// Checks that the COTP PDU `cotp` (a TPKT payload) is a connect confirm.
pub fn check_connect_confirm(cotp: &[u8]) -> (r: Result<(), Error>)
    ensures
        match confirm_check(cotp@) {
            Ok(()) => r is Ok,
            Err(f) => r matches Err(e) && reports(e, f),
        },
{
    match CotpPdu::decode(cotp) {
        Err(e) => Err(Error::Proto(e)),
        Ok((CotpPdu::ConnectConfirm { .. }, _)) => Ok(()),
        Ok(_) => Err(Error::NegotiationFailed),
    }
}

/// The header of the negotiation request: a job with reference 1 and 8 bytes
/// of parameters.
pub open spec fn negotiate_request_header() -> S7Header {
    S7Header {
        pdu_type: PduType::Job,
        reserved: 0,
        pdu_ref: 1,
        param_len: 8,
        data_len: 0,
        error_class: None,
        error_code: None,
    }
}

/// The S7 bytes of the negotiation request for PDU size `pdu`, with queue
/// depths 1 and 1.
pub open spec fn negotiate_request_body(pdu: u16) -> Seq<u8> {
    s7_header_bytes(negotiate_request_header()) + negotiate_bytes(1, 1, pdu)
}

/// The COTP PDU that carries the negotiation request.
pub open spec fn negotiate_request_model(pdu: u16) -> CotpModel {
    CotpModel::Data { tpdu_nr: 0, last: true, payload: negotiate_request_body(pdu) }
}

/// The frame of the negotiation request for the PDU size of `params`.
pub fn negotiate_request(params: &ConnectParams) -> (r: Vec<u8>)
    ensures
        r@ == tpkt_bytes(cotp_bytes(negotiate_request_model(params.pdu_size))),
{
    let header = S7Header {
        pdu_type: PduType::Job,
        reserved: 0,
        pdu_ref: 1,
        param_len: 8,
        data_len: 0,
        error_class: None,
        error_code: None,
    };
    let req = NegotiateRequest { max_amq_calling: 1, max_amq_called: 1, pdu_length: params.pdu_size };
    let mut s7_buf: Vec<u8> = Vec::new();
    header.encode(&mut s7_buf);
    req.encode(&mut s7_buf);
    assert(s7_buf@ =~= negotiate_request_body(params.pdu_size));
    let dt = CotpPdu::Data { tpdu_nr: 0, last: true, payload: s7_buf };
    frame_of(&dt)
}

/// What the answer to the negotiation request gives: the granted PDU size. The
/// answer must be a data PDU carrying an AckData header without error and the
/// negotiation parameters.
pub open spec fn negotiate_answer(cotp: Seq<u8>) -> Result<u16, SetupFault> {
    match cotp_decode_spec(cotp) {
        Err(e) => Err(SetupFault::Proto(e)),
        Ok((CotpModel::Data { payload, .. }, _)) => match s7_header_decode_spec(payload) {
            Err(e) => Err(SetupFault::Proto(e)),
            Ok((h, n)) => if h.pdu_type != PduType::AckData {
                Err(SetupFault::NegotiationFailed)
            } else if h.error_class is Some && h.error_code is Some && (h.error_class->Some_0
                != 0 || h.error_code->Some_0 != 0) {
                Err(
                    SetupFault::Refused(
                        ((h.error_class->Some_0 as u32) * 256 + h.error_code->Some_0 as u32) as u32,
                    ),
                )
            } else {
                match negotiate_decode_spec(payload.subrange(n, payload.len() as int)) {
                    Err(e) => Err(SetupFault::Proto(e)),
                    Ok((_, _, pdu)) => Ok(pdu),
                }
            },
        },
        Ok(_) => Err(SetupFault::UnexpectedResponse),
    }
}

/// Reads the answer to the negotiation request from the COTP PDU `cotp` (a TPKT
/// payload).
pub fn negotiate_result(cotp: &[u8]) -> (r: Result<Connection, Error>)
    ensures
        match negotiate_answer(cotp@) {
            Ok(pdu) => r == Ok::<Connection, Error>(Connection { pdu_size: pdu }),
            Err(f) => r matches Err(e) && reports(e, f),
        },
{
    let payload = match CotpPdu::decode(cotp) {
        Err(e) => return Err(Error::Proto(e)),
        Ok((CotpPdu::Data { payload, .. }, _)) => payload,
        Ok(_) => return Err(Error::UnexpectedResponse),
    };
    let (h, n) = match S7Header::decode(payload.as_slice()) {
        Err(e) => return Err(Error::Proto(e)),
        Ok(x) => x,
    };
    if h.pdu_type != PduType::AckData {
        return Err(Error::NegotiationFailed);
    }
    if let (Some(ec), Some(ecd)) = (h.error_class, h.error_code) {
        if ec != 0 || ecd != 0 {
            return Err(
                Error::PlcError { code: (ec as u32) * 256 + ecd as u32, message: text("negotiate error") },
            );
        }
    }
    let rest = copy_range(payload.as_slice(), n, payload.len());
    match NegotiateResponse::decode(rest.as_slice()) {
        Err(e) => Err(Error::Proto(e)),
        Ok(resp) => Ok(Connection { pdu_size: resp.pdu_length }),
    }
}

} // verus!
