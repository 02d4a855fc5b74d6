use snap7::proto::cotp::CotpPdu;
use snap7::proto::tpkt::TpktFrame;

fn roundtrip(pdu: &CotpPdu) -> CotpPdu {
    let mut buf = Vec::new();
    pdu.encode(&mut buf);
    let (decoded, used) = CotpPdu::decode(&buf).unwrap();
    assert!(used <= buf.len());
    decoded
}

#[test]
fn cotp_dt_roundtrip() {
    let pdu = CotpPdu::Data { tpdu_nr: 0, last: true, payload: b"payload".to_vec() };
    match roundtrip(&pdu) {
        CotpPdu::Data { tpdu_nr, last, payload } => {
            assert_eq!(tpdu_nr, 0);
            assert!(last);
            assert_eq!(payload.as_slice(), b"payload");
        }
        _ => panic!("expected Data"),
    }
}

#[test]
fn cotp_cr_roundtrip() {
    let pdu = CotpPdu::ConnectRequest { dst_ref: 0x0000, src_ref: 0x0001, rack: 0, slot: 2 };
    match roundtrip(&pdu) {
        CotpPdu::ConnectRequest { src_ref, rack, slot, .. } => {
            assert_eq!(src_ref, 0x0001);
            assert_eq!(rack, 0);
            assert_eq!(slot, 2);
        }
        _ => panic!("expected ConnectRequest"),
    }
}

#[test]
fn cotp_cc_roundtrip() {
    let pdu = CotpPdu::ConnectConfirm { dst_ref: 0x0001, src_ref: 0x0001 };
    match roundtrip(&pdu) {
        CotpPdu::ConnectConfirm { dst_ref, src_ref } => {
            assert_eq!(dst_ref, 0x0001);
            assert_eq!(src_ref, 0x0001);
        }
        _ => panic!("expected ConnectConfirm"),
    }
}

#[test]
fn cotp_er_roundtrip() {
    let pdu = CotpPdu::Error { dst_ref: 0x0001, src_ref: 0x0001, reject_cause: 0x03 };
    match roundtrip(&pdu) {
        CotpPdu::Error { reject_cause, .. } => assert_eq!(reject_cause, 0x03),
        _ => panic!("expected Error"),
    }
}

#[test]
fn cotp_er_wire_format() {
    let mut buf = Vec::new();
    CotpPdu::Error { dst_ref: 0x0000, src_ref: 0x0001, reject_cause: 0x03 }.encode(&mut buf);
    assert_eq!(&buf[..], &[0x06, 0x70, 0x00, 0x00, 0x00, 0x01, 0x03]);
}

#[test]
fn cotp_dt_last_false() {
    let pdu = CotpPdu::Data { tpdu_nr: 5, last: false, payload: b"x".to_vec() };
    match roundtrip(&pdu) {
        CotpPdu::Data { tpdu_nr, last, .. } => {
            assert_eq!(tpdu_nr, 5);
            assert!(!last);
        }
        _ => panic!("expected Data"),
    }
}

#[test]
fn cotp_decode_unknown_code_returns_err() {
    let raw = &[0x02u8, 0xAA, 0x00, 0x00];
    assert!(CotpPdu::decode(raw).is_err());
}

#[test]
fn cotp_decode_truncated_returns_err() {
    assert!(CotpPdu::decode(b"\x01").is_err());
}

#[test]
fn cotp_cr_rack_slot_encoding() {
    let pdu = CotpPdu::ConnectRequest { dst_ref: 0, src_ref: 0, rack: 1, slot: 3 };
    let mut buf = Vec::new();
    pdu.encode(&mut buf);
    assert_eq!(buf[14], 0x23);
    match roundtrip(&pdu) {
        CotpPdu::ConnectRequest { rack, slot, .. } => {
            assert_eq!(rack, 1);
            assert_eq!(slot, 3);
        }
        _ => panic!("expected ConnectRequest"),
    }
}

#[test]
fn tpkt_roundtrip() {
    let frame = TpktFrame { payload: b"hello".to_vec() };
    let mut buf = Vec::new();
    frame.encode(&mut buf).unwrap();
    let (decoded, used) = TpktFrame::decode(&buf).unwrap();
    assert_eq!(decoded.payload.as_slice(), b"hello");
    assert_eq!(used, 9);
}

#[test]
fn tpkt_decode_truncated_returns_err() {
    assert!(TpktFrame::decode(b"\x03\x00").is_err());
}

#[test]
fn tpkt_decode_wrong_version_returns_err() {
    assert!(TpktFrame::decode(b"\x02\x00\x00\x05hi").is_err());
}

#[test]
fn tpkt_encode_empty_payload() {
    let frame = TpktFrame { payload: Vec::new() };
    let mut buf = Vec::new();
    frame.encode(&mut buf).unwrap();
    assert_eq!(buf.len(), 4);
    assert_eq!(&buf[..], &[0x03, 0x00, 0x00, 0x04]);
}

#[test]
fn tpkt_decode_length_too_small_returns_err() {
    assert!(TpktFrame::decode(b"\x03\x00\x00\x02").is_err());
}

#[test]
fn tpkt_encode_oversized_returns_err() {
    let frame = TpktFrame { payload: vec![0u8; 65532] };
    let mut buf = Vec::new();
    assert!(frame.encode(&mut buf).is_err());
    assert!(buf.is_empty());
}

#[test]
fn tpkt_oversized_message_names_the_size() {
    let frame = TpktFrame { payload: vec![0u8; 70000] };
    let mut buf = Vec::new();
    match frame.encode(&mut buf) {
        Err(snap7::error::ProtoError::EncodingFailed(m)) => {
            assert_eq!(m, "frame too large: 70004 bytes exceeds TPKT maximum of 65535")
        }
        other => panic!("unexpected {:?}", other),
    }
}
