use snap7::client::blocks::parse_block_info;
use snap7::client::connection::{
    check_connect_confirm, connect_request, negotiate_request, negotiate_result, Connection,
};
use snap7::client::plus::{
    create_object_frame, db_lid, db_read_request, db_read_value, db_write_request,
    delete_object_request, frame_plus, keepalive_frame, plus_connection_from, plus_payload_len,
    plus_reply_data, PlusConnection,
};
use snap7::client::udp::DatagramBuffer;
use snap7::error::{Error, ProtoError};
use snap7::proto::cotp::CotpPdu;
use snap7::proto::s7::header::{PduType, S7Header};
use snap7::proto::s7::negotiate::NegotiateResponse;
use snap7::proto::s7commplus::frame::Version;
use snap7::proto::tpkt::TpktFrame;
use snap7::server::handshake::{confirm_connect, frame_payload_len, negotiate};
use snap7::types::ConnectParams;

#[test]
fn parse_block_info_valid() {
    const TOTAL: usize = 84;
    let mut buf = vec![0u8; TOTAL];
    buf[0] = 0x70;
    buf[1] = 0x70;
    buf[3] = 0x09;
    buf[4] = 0x01;
    buf[5] = 0x41;
    buf[6] = 0x00;
    buf[7] = 0x05;
    let total_be = (TOTAL as u32).to_be_bytes();
    buf[8..12].copy_from_slice(&total_be);
    buf[28] = 0x00;
    buf[29] = 0x10;
    buf[32] = 0x00;
    buf[33] = 0x08;
    buf[34] = 0x00;
    buf[35] = 0x0A;
    let footer_start = TOTAL - 48;
    buf[footer_start + 20..footer_start + 27].copy_from_slice(b"SIEMENS");
    buf[footer_start + 28..footer_start + 32].copy_from_slice(b"TEST");
    buf[footer_start + 36..footer_start + 40].copy_from_slice(b"V1.0");
    buf[footer_start + 44] = 0xAB;
    buf[footer_start + 45] = 0xCD;

    let info = parse_block_info(&buf).unwrap();
    assert_eq!(info.block_number, 5);
    assert_eq!(info.block_type, 0x41);
    assert_eq!(info.language, 1);
    assert_eq!(info.flags, 9);
    assert_eq!(info.size, TOTAL as u16);
    assert_eq!(info.size_ram, 16);
    assert_eq!(info.mc7_size, 10);
    assert_eq!(info.local_data, 8);
    assert_eq!(info.checksum, 0xABCD);
    assert_eq!(info.author, "SIEMENS");
    assert_eq!(info.family, "TEST");
    assert_eq!(info.header, "V1.0");
}

#[test]
fn parse_block_info_too_short() {
    let buf = vec![0u8; 10];
    assert!(parse_block_info(&buf).is_err());
}

#[test]
fn parse_block_info_mismatched_load_size() {
    const TOTAL: usize = 84;
    let mut buf = vec![0u8; TOTAL];
    let wrong = 100u32.to_be_bytes();
    buf[8..12].copy_from_slice(&wrong);
    buf[34] = 0x00;
    buf[35] = 0x0A;
    assert!(parse_block_info(&buf).is_err());
}

fn payload_of(frame: &[u8]) -> Vec<u8> {
    let (f, used) = TpktFrame::decode(frame).unwrap();
    assert_eq!(used, frame.len());
    f.payload
}

#[test]
fn client_and_simulated_plc_agree_on_setup() {
    let params = ConnectParams::default();
    let cr = connect_request(&params);
    let cc = confirm_connect(&payload_of(&cr)).unwrap();
    assert!(check_connect_confirm(&payload_of(&cc)).is_ok());
    let mut p = params;
    p.pdu_size = 960;
    let nr = negotiate_request(&p);
    let (reply, granted) = negotiate(&payload_of(&nr)).unwrap();
    assert_eq!(granted, 480);
    assert_eq!(negotiate_result(&payload_of(&reply)).unwrap(), Connection { pdu_size: 480 });
    p.pdu_size = 240;
    let (reply, granted) = negotiate(&payload_of(&negotiate_request(&p))).unwrap();
    assert_eq!(granted, 240);
    assert_eq!(negotiate_result(&payload_of(&reply)).unwrap().pdu_size, 240);
}

#[test]
fn handshake_refuses_out_of_order_pdus() {
    let mut dt = Vec::new();
    CotpPdu::Data { tpdu_nr: 0, last: true, payload: b"oops".to_vec() }.encode(&mut dt);
    assert!(matches!(confirm_connect(&dt), Err(snap7::server::error::Error::NegotiationFailed)));
    assert!(matches!(confirm_connect(&[0x01]), Err(snap7::server::error::Error::Proto(_))));
    let mut cc = Vec::new();
    CotpPdu::ConnectConfirm { dst_ref: 1, src_ref: 1 }.encode(&mut cc);
    assert!(matches!(negotiate(&cc), Err(snap7::server::error::Error::NegotiationFailed)));
    assert!(frame_payload_len(&[0x02, 0, 0, 10]).is_err());
    assert!(frame_payload_len(&[0x03, 0, 0, 3]).is_err());
    assert_eq!(frame_payload_len(&[0x03, 0, 0, 22]).unwrap(), 18);
}

#[test]
fn connect_confirm_is_required() {
    let mut er = Vec::new();
    CotpPdu::Error { dst_ref: 0, src_ref: 0, reject_cause: 0 }.encode(&mut er);
    assert!(matches!(check_connect_confirm(&er), Err(Error::NegotiationFailed)));
}

fn negotiate_answer_bytes(pdu_type: PduType, ec: u8, ecd: u8) -> Vec<u8> {
    let h = S7Header {
        pdu_type,
        reserved: 0,
        pdu_ref: 1,
        param_len: 8,
        data_len: 0,
        error_class: Some(ec),
        error_code: Some(ecd),
    };
    let mut s7 = Vec::new();
    h.encode(&mut s7);
    NegotiateResponse { max_amq_calling: 1, max_amq_called: 1, pdu_length: 480 }.encode(&mut s7);
    let mut cotp = Vec::new();
    CotpPdu::Data { tpdu_nr: 0, last: true, payload: s7 }.encode(&mut cotp);
    cotp
}

#[test]
fn negotiate_answer_errors() {
    assert_eq!(
        negotiate_result(&negotiate_answer_bytes(PduType::AckData, 0, 0)).unwrap().pdu_size,
        480
    );
    match negotiate_result(&negotiate_answer_bytes(PduType::AckData, 0x81, 0x04)) {
        Err(Error::PlcError { code, message }) => {
            assert_eq!(code, 0x8104);
            assert_eq!(message, "negotiate error");
        }
        other => panic!("unexpected {:?}", other),
    }
    assert!(matches!(
        negotiate_result(&negotiate_answer_bytes(PduType::Ack, 0, 0)),
        Err(Error::NegotiationFailed)
    ));
    let mut cc = Vec::new();
    CotpPdu::ConnectConfirm { dst_ref: 1, src_ref: 1 }.encode(&mut cc);
    assert!(matches!(negotiate_result(&cc), Err(Error::UnexpectedResponse)));
}

#[test]
fn plus_lid_layout() {
    assert_eq!(db_lid(1, 0), (0x48, 0x8400_1000));
    assert_eq!(db_lid(0x20, 0x1234), (0x48, 0x8402_0234));
    assert_eq!(db_lid(0xFFFF, 0xFFF), (0x48, 0x8FFF_FFFF));
}

fn create_object_answer(session_id: u32) -> Vec<u8> {
    let mut da = vec![0x32, 0x00, 0x00, 0x04, 0xCA, 0x00, 0x00, 0x00, 0x01];
    da.extend_from_slice(&session_id.to_be_bytes());
    da.push(0x00);
    payload_of(&frame_plus(Version::V1, &da).unwrap())
}

#[test]
fn plus_connect_extracts_session_id() {
    let conn = plus_connection_from(&create_object_answer(0xCAFEBABE)).unwrap();
    assert_eq!(conn.session_id, 0xCAFEBABE);
    assert_eq!(conn.seqnum, 2);
    assert_eq!(conn.version, Version::V1);
}

#[test]
fn plus_frames() {
    let f = create_object_frame();
    assert_eq!(f.len(), 4 + 8 + 78);
    assert_eq!(&f[..8], &[0x03, 0x00, 0x00, 90, 0x72, 0x01, 0x00, 78]);
    assert_eq!(keepalive_frame(), vec![0x03, 0x00, 0x00, 12, 0x72, 0xFF, 0, 0, 0x72, 0xFF, 0, 0]);
    assert!(matches!(
        frame_plus(Version::V1, &vec![0u8; 65524]),
        Err(Error::Proto(ProtoError::EncodingFailed(_)))
    ));
    assert_eq!(frame_plus(Version::V1, &vec![0u8; 65523]).unwrap().len(), 65535);
    assert_eq!(plus_payload_len(&[3, 0, 0, 2]), 0);
    assert_eq!(plus_payload_len(&[3, 0, 1, 0]), 252);
}

#[test]
fn plus_db_read_returns_value() {
    let mut conn = PlusConnection { session_id: 1, seqnum: 2, version: Version::V1 };
    let req = db_read_request(&mut conn, 1, 0);
    assert_eq!(conn.seqnum, 3);
    let data = plus_reply_data(&payload_of(&req)).unwrap();
    assert_eq!(u16::from_be_bytes([data[7], data[8]]), 2);
    let mut da = vec![0x32, 0x00, 0x00, 0x05, 0x4C, 0x00, 0x00, 0x00, 0x02];
    da.extend_from_slice(&1u32.to_be_bytes());
    da.push(0x00);
    da.push(0x0A);
    da.extend_from_slice(&4u16.to_be_bytes());
    da.extend_from_slice(&[0x3F, 0x80, 0x00, 0x00]);
    assert_eq!(db_read_value(&da, 4).unwrap(), vec![0x3F, 0x80, 0x00, 0x00]);
    assert_eq!(db_read_value(&da, 2).unwrap(), vec![0x3F, 0x80]);
    assert_eq!(db_read_value(&da, 9).unwrap(), vec![0x3F, 0x80, 0x00, 0x00]);
}

#[test]
fn plus_sequence_numbers_wrap() {
    let mut conn = PlusConnection { session_id: 7, seqnum: u16::MAX, version: Version::V3 };
    let _ = db_write_request(&mut conn, 1, 2, &[1, 2, 3]).unwrap();
    assert_eq!(conn.seqnum, 0);
    let _ = delete_object_request(&mut conn);
    assert_eq!(conn.seqnum, 1);
    assert_eq!(conn.session_id, 7);
}

#[test]
fn datagram_rest_is_kept_for_the_next_read() {
    let mut b = DatagramBuffer::new();
    assert!(b.is_empty());
    let first = b.receive(&[1, 2, 3, 4, 5], 2);
    assert_eq!(first, vec![1, 2]);
    assert_eq!(b.take(2), vec![3, 4]);
    assert_eq!(b.take(10), vec![5]);
    assert!(b.is_empty());
    assert_eq!(b.take(4), Vec::<u8>::new());
}
