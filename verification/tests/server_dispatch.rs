use std::sync::{Arc, Mutex};
use snap7::proto::s7::header::{Area, PduType, S7Header, TransportSize};
use snap7::proto::s7::read_var::{AddressItem, ReadVarRequest, ReadVarResponse};
use snap7::proto::s7::write_var::{WriteItem, WriteVarRequest, WriteVarResponse};
use snap7::server::dispatch::{reply_frame, respond};
use snap7::server::store::DataStore;
use snap7::client::{
    check_plc_error, parse_reply, read_batch_params, read_batch_result, request_frame_bytes, write_batch_params,
    write_batch_result, MultiReadItem, MultiWriteItem,
};

fn job(pdu_ref: u16, param: &[u8], data: &[u8]) -> Vec<u8> {
    let h = S7Header {
        pdu_type: PduType::Job,
        reserved: 0,
        pdu_ref,
        param_len: param.len() as u16,
        data_len: data.len() as u16,
        error_class: None,
        error_code: None,
    };
    let mut out = Vec::new();
    h.encode(&mut out);
    out.extend_from_slice(param);
    out.extend_from_slice(data);
    out
}

fn item(db: u16, start: u32, len: u16) -> AddressItem {
    AddressItem {
        area: Area::DataBlock,
        db_number: db,
        start,
        bit_offset: 0,
        length: len,
        transport: TransportSize::Byte,
    }
}

#[test]
fn simulated_plc_answers_write_then_read() {
    let mut store = DataStore::new();
    let req = WriteVarRequest {
        items: vec![WriteItem { address: item(2, 10, 2), data: vec![0xAB, 0xCD] }],
    };
    let mut body = Vec::new();
    req.encode(&mut body);
    let reply = respond(&mut store, &job(5, &body, &[]));
    let (h, n) = S7Header::decode(&reply).unwrap();
    assert_eq!(h.pdu_type, PduType::AckData);
    assert_eq!(h.pdu_ref, 5);
    assert_eq!(h.error_class, Some(0));
    assert_eq!(&reply[n..n + 2], &[0x05, 0x01]);
    let (codes, _) = WriteVarResponse::decode(&reply[n + 2..], 1).unwrap();
    assert_eq!(codes.return_codes, vec![0xFF]);
    assert_eq!(store.read_bytes(2, 10, 2), vec![0xAB, 0xCD]);

    let rreq = ReadVarRequest { items: vec![item(2, 10, 2)] };
    let mut rbody = Vec::new();
    rreq.encode(&mut rbody);
    let reply = respond(&mut store, &job(6, &rbody, &[]));
    let (h, n) = S7Header::decode(&reply).unwrap();
    assert_eq!(h.pdu_ref, 6);
    assert_eq!(&reply[n..n + 2], &[0x04, 0x01]);
    let (resp, _) = ReadVarResponse::decode(&reply[n + 2..], 1).unwrap();
    assert_eq!(resp.items[0].return_code, 0xFF);
    assert_eq!(resp.items[0].data, vec![0xAB, 0xCD]);
}

#[test]
fn simulated_plc_refuses_garbage() {
    let mut store = DataStore::new();
    let reply = respond(&mut store, &job(9, &[0x99], &[]));
    let (h, _) = S7Header::decode(&reply).unwrap();
    assert_eq!(h.pdu_ref, 9);
    assert_eq!(h.error_class, Some(0x81));
    assert_eq!(h.error_code, Some(0x04));
    let reply = respond(&mut store, &[0x00, 0x01]);
    let (h, _) = S7Header::decode(&reply).unwrap();
    assert_eq!(h.pdu_ref, 0);
    assert_eq!(h.error_class, Some(0x81));
}

#[test]
fn reply_frames_carry_the_pdu() {
    let f = reply_frame(&[1, 2, 3]).unwrap();
    assert_eq!(f, vec![0x03, 0x00, 0x00, 10, 0x02, 0xF0, 0x80, 1, 2, 3]);
    assert!(reply_frame(&vec![0u8; 65529]).is_err());
}

fn cotp_payload(frame: &[u8]) -> Vec<u8> {
    frame[4..].to_vec()
}

fn served(store: &mut DataStore, frame: &[u8]) -> Vec<u8> {
    let pdu = match snap7::proto::cotp::CotpPdu::decode(&cotp_payload(frame)) {
        Ok((snap7::proto::cotp::CotpPdu::Data { payload, .. }, _)) => payload,
        _ => panic!("request is not a data unit"),
    };
    let reply = respond(store, &pdu);
    cotp_payload(&reply_frame(&reply).unwrap())
}

#[test]
fn client_write_then_read_through_simulated_plc() {
    let mut store = DataStore::new();
    let writes = [MultiWriteItem::db(3, 10, vec![0xDE, 0xAD, 0xBE])];
    let param = write_batch_params(&writes, 0, 1);
    let frame = request_frame_bytes(&param, &[], 7, PduType::Job).unwrap();
    let answer = served(&mut store, &frame);
    let (h, body) = parse_reply(&answer).unwrap();
    assert_eq!(h.pdu_ref, 7);
    assert!(check_plc_error(&h, "write").is_ok());
    assert!(write_batch_result(&body, 0, 1).is_ok());

    let reads = [MultiReadItem::db(3, 10, 3), MultiReadItem::db(3, 9, 2)];
    let param = read_batch_params(&reads, 0, 2);
    let frame = request_frame_bytes(&param, &[], 8, PduType::Job).unwrap();
    let answer = served(&mut store, &frame);
    let (h, body) = parse_reply(&answer).unwrap();
    assert_eq!(h.pdu_ref, 8);
    assert!(check_plc_error(&h, "read").is_ok());
    let got = read_batch_result(&body, 0, 2).unwrap();
    assert_eq!(got, vec![vec![0xDE, 0xAD, 0xBE], vec![0x00, 0xDE]]);
}

#[test]
fn served_write_calls_the_write_callbacks() {
    let mut store = DataStore::new();
    let seen = Arc::new(Mutex::new(Vec::new()));
    let s2 = seen.clone();
    store.on_write(move |info| s2.lock().unwrap().push((info.event, info.area, info.db_number, info.start, info.length)));
    let writes = [MultiWriteItem::db(3, 10, vec![0xDE, 0xAD])];
    let param = write_batch_params(&writes, 0, 1);
    let frame = request_frame_bytes(&param, &[], 9, PduType::Job).unwrap();
    let _ = served(&mut store, &frame);
    assert_eq!(*seen.lock().unwrap(), vec![("write", 0x84, 3, 10, 2)]);
}
