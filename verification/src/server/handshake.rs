//! The PLC side of connection setup: the COTP connect confirm and the S7 PDU
//! size negotiation, as functions from received bytes to the bytes to send.
use vstd::prelude::*;
use crate::proto::cotp::{cotp_bytes, cotp_decode_spec, lemma_cotp_roundtrip, CotpModel, CotpPdu};
use crate::proto::s7::header::{
    header_well_formed, lemma_s7_header_roundtrip, s7_header_bytes, s7_header_decode_spec, PduType,
    S7Header,
};
use crate::proto::s7::negotiate::{
    lemma_negotiate_roundtrip, negotiate_bytes, negotiate_decode_spec, NegotiateRequest,
    NegotiateResponse,
};
use crate::proto::tpkt::{lemma_tpkt_roundtrip, tpkt_bytes, tpkt_decode_spec, TpktFrame};
use crate::client::connection::{
    confirm_check, connect_request_model, negotiate_answer, negotiate_request_body,
    negotiate_request_header, negotiate_request_model,
};
use crate::server::error::Error;
use crate::wire::{be16_at, read_be16};

verus! {

/// The largest PDU the simulated PLC grants.
pub const MAX_PDU_SIZE: u16 = 480;

/// The length of the negotiation parameters in the reply.
pub const NEGOTIATE_PARAM_LEN: u16 = 8;

/// The PDU size granted for a proposed one: the proposal, capped at [`MAX_PDU_SIZE`].
pub open spec fn granted_pdu(proposed: u16) -> u16 {
    if proposed < MAX_PDU_SIZE {
        proposed
    } else {
        MAX_PDU_SIZE
    }
}

/// The payload length announced by a received TPKT header (its first 4 bytes):
/// a header that is not version 3, or announces under 4 bytes, ends the setup.
pub fn frame_payload_len(hdr: &[u8]) -> (r: Result<usize, Error>)
    requires
        hdr@.len() >= 4,
    ensures
        hdr@[0] != 0x03 ==> r is Err && r->Err_0 is NegotiationFailed,
        hdr@[0] == 0x03 && be16_at(hdr@, 2) < 4 ==> r is Err && r->Err_0 is NegotiationFailed,
        hdr@[0] == 0x03 && be16_at(hdr@, 2) >= 4 ==> r == Ok::<usize, Error>(
            (be16_at(hdr@, 2) - 4) as usize,
        ),
{
    if hdr[0] != 0x03 {
        return Err(Error::NegotiationFailed);
    }
    let total = read_be16(hdr, 2) as usize;
    if total < 4 {
        return Err(Error::NegotiationFailed);
    }
    Ok(total - 4)
}

/// The TPKT frame carrying a COTP PDU.
pub open spec fn cotp_frame(m: CotpModel) -> Seq<u8> {
    tpkt_bytes(cotp_bytes(m))
}

fn send_cotp(pdu: &CotpPdu) -> (r: Vec<u8>)
    requires
        cotp_bytes(pdu@).len() + 4 <= u16::MAX,
    ensures
        r@ == cotp_frame(pdu@),
{
    let mut body: Vec<u8> = Vec::new();
    pdu.encode(&mut body);
    assert(body@ =~= cotp_bytes(pdu@));
    let frame = TpktFrame { payload: body };
    let mut out: Vec<u8> = Vec::new();
    let _ = frame.encode(&mut out);
    assert(out@ =~= cotp_frame(pdu@));
    out
}

/// What the PLC answers to the first COTP PDU of a connection: a connect confirm
/// that names the client's reference and the PLC's reference 1.
pub open spec fn confirm_spec(cotp: Seq<u8>) -> Result<Seq<u8>, Error> {
    match cotp_decode_spec(cotp) {
        Err(e) => Err(Error::Proto(e)),
        Ok((CotpModel::ConnectRequest { src_ref, .. }, _)) => Ok(
            cotp_frame(CotpModel::ConnectConfirm { dst_ref: src_ref, src_ref: 1 }),
        ),
        Ok(_) => Err(Error::NegotiationFailed),
    }
}

/// Answers the connect request in `cotp` (a TPKT payload) with the frame of a
/// connect confirm; any other PDU ends the setup.
pub fn confirm_connect(cotp: &[u8]) -> (r: Result<Vec<u8>, Error>)
    ensures
        match confirm_spec(cotp@) {
            Ok(f) => r matches Ok(v) && v@ == f,
            Err(Error::Proto(e)) => r matches Err(Error::Proto(e2)) && e2 == e,
            Err(Error::NegotiationFailed) => r matches Err(Error::NegotiationFailed),
        },
{
    match CotpPdu::decode(cotp) {
        Err(e) => Err(Error::Proto(e)),
        Ok((CotpPdu::ConnectRequest { src_ref, .. }, _)) => {
            let cc = CotpPdu::ConnectConfirm { dst_ref: src_ref, src_ref: 0x0001 };
            Ok(send_cotp(&cc))
        },
        Ok(_) => Err(Error::NegotiationFailed),
    }
}

/// The header of the negotiation reply to a request with reference `pdu_ref`.
pub open spec fn reply_header(pdu_ref: u16) -> S7Header {
    S7Header {
        pdu_type: PduType::AckData,
        reserved: 0,
        pdu_ref,
        param_len: NEGOTIATE_PARAM_LEN,
        data_len: 0,
        error_class: Some(0u8),
        error_code: Some(0u8),
    }
}

/// The S7 bytes of the negotiation reply.
pub open spec fn reply_body(pdu_ref: u16, calling: u16, called: u16, pdu: u16) -> Seq<u8> {
    s7_header_bytes(reply_header(pdu_ref)) + negotiate_bytes(calling, called, pdu)
}

/// The frame of the negotiation reply: a last COTP data PDU numbered 0.
pub open spec fn reply_frame(pdu_ref: u16, calling: u16, called: u16, pdu: u16) -> Seq<u8> {
    cotp_frame(
        CotpModel::Data { tpdu_nr: 0, last: true, payload: reply_body(pdu_ref, calling, called, pdu) },
    )
}

/// What the PLC answers to the PDU that should carry the negotiation request:
/// the reply frame and the granted PDU size.
pub open spec fn negotiate_spec(cotp: Seq<u8>) -> Result<(Seq<u8>, u16), Error> {
    match cotp_decode_spec(cotp) {
        Err(e) => Err(Error::Proto(e)),
        Ok((CotpModel::Data { payload, .. }, _)) => match s7_header_decode_spec(payload) {
            Err(e) => Err(Error::Proto(e)),
            Ok((h, n)) => if h.pdu_type != PduType::Job {
                Err(Error::NegotiationFailed)
            } else {
                match negotiate_decode_spec(payload.subrange(n, payload.len() as int)) {
                    Err(e) => Err(Error::Proto(e)),
                    Ok((calling, called, pdu)) => Ok(
                        (
                            reply_frame(h.pdu_ref, calling, called, granted_pdu(pdu)),
                            granted_pdu(pdu),
                        ),
                    ),
                }
            },
        },
        Ok(_) => Err(Error::NegotiationFailed),
    }
}

/// Answers the negotiation request carried by `cotp` (a TPKT payload): grants the
/// proposed PDU size capped at [`MAX_PDU_SIZE`], echoes the request reference and
/// the proposed queue depths; returns the reply frame and the granted size.
pub fn negotiate(cotp: &[u8]) -> (r: Result<(Vec<u8>, u16), Error>)
    ensures
        match negotiate_spec(cotp@) {
            Ok((f, n)) => r matches Ok((v, m)) && v@ == f && m == n,
            Err(Error::Proto(e)) => r matches Err(Error::Proto(e2)) && e2 == e,
            Err(Error::NegotiationFailed) => r matches Err(Error::NegotiationFailed),
        },
        r matches Ok((_, m)) ==> m <= MAX_PDU_SIZE,
{
    let payload = match CotpPdu::decode(cotp) {
        Err(e) => return Err(Error::Proto(e)),
        Ok((CotpPdu::Data { payload, .. }, _)) => payload,
        Ok(_) => return Err(Error::NegotiationFailed),
    };
    let (req_header, n) = match S7Header::decode(payload.as_slice()) {
        Err(e) => return Err(Error::Proto(e)),
        Ok(x) => x,
    };
    if req_header.pdu_type != PduType::Job {
        return Err(Error::NegotiationFailed);
    }
    let rest = crate::wire::copy_range(payload.as_slice(), n, payload.len());
    let neg_req = match NegotiateRequest::decode(rest.as_slice()) {
        Err(e) => return Err(Error::Proto(e)),
        Ok(q) => q,
    };
    let negotiated = if neg_req.pdu_length < MAX_PDU_SIZE {
        neg_req.pdu_length
    } else {
        MAX_PDU_SIZE
    };
    let resp_header = S7Header {
        pdu_type: PduType::AckData,
        reserved: 0,
        pdu_ref: req_header.pdu_ref,
        param_len: NEGOTIATE_PARAM_LEN,
        data_len: 0,
        error_class: Some(0),
        error_code: Some(0),
    };
    let neg_resp = NegotiateResponse {
        max_amq_calling: neg_req.max_amq_calling,
        max_amq_called: neg_req.max_amq_called,
        pdu_length: negotiated,
    };
    let mut s7_buf: Vec<u8> = Vec::new();
    resp_header.encode(&mut s7_buf);
    neg_resp.encode(&mut s7_buf);
    assert(s7_buf@ =~= reply_body(
        req_header.pdu_ref,
        neg_req.max_amq_calling,
        neg_req.max_amq_called,
        negotiated,
    ));
    let dt = CotpPdu::Data { tpdu_nr: 0, last: true, payload: s7_buf };
    Ok((send_cotp(&dt), negotiated))
}

/// A client reads back from the reply frame exactly what the PLC granted: the
/// frame decodes to a data PDU whose header is the reply header and whose
/// parameters are the echoed queue depths and the granted size.
pub proof fn lemma_reply_reads_back(pdu_ref: u16, calling: u16, called: u16, pdu: u16)
    ensures
        ({
            let body = reply_body(pdu_ref, calling, called, pdu);
            let cotp = cotp_bytes(CotpModel::Data { tpdu_nr: 0, last: true, payload: body });
            &&& tpkt_decode_spec(reply_frame(pdu_ref, calling, called, pdu)) == Ok::<
                (Seq<u8>, int),
                crate::error::ProtoError,
            >((cotp, cotp.len() + 4int))
            &&& cotp_decode_spec(cotp) matches Ok((CotpModel::Data { payload, .. }, _))
                && payload == body
            &&& s7_header_decode_spec(body) == Ok::<(S7Header, int), crate::error::ProtoError>(
                (reply_header(pdu_ref), 12),
            )
            &&& negotiate_decode_spec(body.subrange(12, body.len() as int)) == Ok::<
                (u16, u16, u16),
                crate::error::ProtoError,
            >((calling, called, pdu))
        }),
{
    let body = reply_body(pdu_ref, calling, called, pdu);
    let m = CotpModel::Data { tpdu_nr: 0, last: true, payload: body };
    let cotp = cotp_bytes(m);
    lemma_cotp_roundtrip(m);
    lemma_tpkt_roundtrip(cotp, Seq::empty());
    assert(tpkt_bytes(cotp) + Seq::<u8>::empty() =~= tpkt_bytes(cotp));
    let h = reply_header(pdu_ref);
    assert(header_well_formed(h));
    lemma_s7_header_roundtrip(h, negotiate_bytes(calling, called, pdu));
    lemma_negotiate_roundtrip(calling, called, pdu, Seq::empty());
    assert(body.subrange(12, body.len() as int) =~= negotiate_bytes(calling, called, pdu)
        + Seq::<u8>::empty());
}

/// A client and the simulated PLC agree on a connection: the PLC confirms the
/// client's connect request with the client's reference, the client accepts
/// that confirm, and the PDU size the PLC grants for the client's negotiation
/// request (the proposal capped at 480) is the size the client reads from the
/// reply.
pub proof fn lemma_client_setup_agrees(rack: u8, slot: u8, pdu: u16)
    requires
        rack < 8,
        slot < 32,
    ensures
        confirm_spec(cotp_bytes(connect_request_model(rack, slot))) == Ok::<Seq<u8>, Error>(
            cotp_frame(CotpModel::ConnectConfirm { dst_ref: 1, src_ref: 1 }),
        ),
        confirm_check(cotp_bytes(CotpModel::ConnectConfirm { dst_ref: 1, src_ref: 1 })) is Ok,
        negotiate_spec(cotp_bytes(negotiate_request_model(pdu))) == Ok::<(Seq<u8>, u16), Error>(
            (reply_frame(1, 1, 1, granted_pdu(pdu)), granted_pdu(pdu)),
        ),
        negotiate_answer(
            cotp_bytes(
                CotpModel::Data {
                    tpdu_nr: 0,
                    last: true,
                    payload: reply_body(1, 1, 1, granted_pdu(pdu)),
                },
            ),
        ) == Ok::<u16, crate::client::connection::SetupFault>(granted_pdu(pdu)),
{
    lemma_cotp_roundtrip(connect_request_model(rack, slot));
    lemma_cotp_roundtrip(CotpModel::ConnectConfirm { dst_ref: 1, src_ref: 1 });
    let req = negotiate_request_model(pdu);
    lemma_cotp_roundtrip(req);
    let h = negotiate_request_header();
    assert(header_well_formed(h));
    lemma_s7_header_roundtrip(h, negotiate_bytes(1, 1, pdu));
    let body = negotiate_request_body(pdu);
    lemma_negotiate_roundtrip(1, 1, pdu, Seq::empty());
    assert(body.subrange(10, body.len() as int) =~= negotiate_bytes(1, 1, pdu) + Seq::<u8>::empty());
    lemma_reply_reads_back(1, 1, 1, granted_pdu(pdu));
}

} // verus!
