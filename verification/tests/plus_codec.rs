use snap7::proto::s7commplus::data::DataArea;
use snap7::proto::s7commplus::frame::{S7PlusFrame, Version};
use snap7::proto::s7commplus::integrity::{append_integrity_v1v2, decode_integrity_tail, verify_v1v2};
use snap7::proto::s7commplus::multivar::{GetVarRequest, GetVarResponse, SetVarRequest};
use snap7::proto::s7commplus::session::{CreateObjectRequest, CreateObjectResponse};
use snap7::proto::s7commplus::vlq::{decode_vlq, encode_vlq};

fn sample() -> DataArea {
    DataArea {
        opcode: 0x31,
        function_code: 0x04CA,
        seqnum: 1,
        session_id: 0,
        transport_flags: 0,
        payload: vec![0xDE, 0xAD],
    }
}

#[test]
fn data_area_encode_decode_roundtrip() {
    let da = sample();
    let mut buf = Vec::new();
    da.encode(&mut buf);
    let (decoded, _) = DataArea::decode(&buf).unwrap();
    assert_eq!(decoded.opcode, 0x31);
    assert_eq!(decoded.function_code, 0x04CA);
    assert_eq!(decoded.seqnum, 1);
    assert_eq!(decoded.session_id, 0);
    assert_eq!(decoded.transport_flags, 0);
    assert_eq!(&decoded.payload[..], &[0xDE, 0xAD]);
}

#[test]
fn data_area_encode_wire_bytes() {
    let da = DataArea {
        opcode: 0x31,
        function_code: 0x04CA,
        seqnum: 0x0001,
        session_id: 0,
        transport_flags: 0,
        payload: Vec::new(),
    };
    let mut buf = Vec::new();
    da.encode(&mut buf);
    assert_eq!(
        &buf[..],
        &[0x31, 0x00, 0x00, 0x04, 0xCA, 0x00, 0x00, 0x00, 0x01, 0x00, 0x00, 0x00, 0x00, 0x00]
    );
}

#[test]
fn data_area_decode_truncated_returns_err() {
    assert!(DataArea::decode(&[0x31, 0x00, 0x00]).is_err());
}

fn make_frame(version: u8, data: &[u8]) -> S7PlusFrame {
    S7PlusFrame { version: Version::try_from(version).unwrap(), data: data.to_vec() }
}

#[test]
fn frame_encode_v1() {
    let f = make_frame(0x01, &[0xAA, 0xBB]);
    let mut buf = Vec::new();
    f.encode(&mut buf).unwrap();
    assert_eq!(&buf[..], &[0x72, 0x01, 0x00, 0x02, 0xAA, 0xBB, 0x72, 0x01, 0x00, 0x02]);
}

#[test]
fn frame_encode_keepalive() {
    let f = S7PlusFrame { version: Version::KeepAlive, data: Vec::new() };
    let mut buf = Vec::new();
    f.encode(&mut buf).unwrap();
    assert_eq!(&buf[..], &[0x72, 0xFF, 0x00, 0x00, 0x72, 0xFF, 0x00, 0x00]);
}

#[test]
fn frame_decode_v2_roundtrip() {
    let f = make_frame(0x02, &[0x01, 0x02, 0x03]);
    let mut buf = Vec::new();
    f.encode(&mut buf).unwrap();
    let (decoded, used) = S7PlusFrame::decode(&buf).unwrap();
    assert_eq!(used, 11);
    assert_eq!(decoded.version, Version::V2);
    assert_eq!(&decoded.data[..], &[0x01, 0x02, 0x03]);
}

#[test]
fn frame_decode_wrong_magic_returns_err() {
    assert!(S7PlusFrame::decode(&[0x73, 0x01, 0x00, 0x00, 0x73, 0x01, 0x00, 0x00]).is_err());
}

#[test]
fn frame_decode_trailer_mismatch_returns_err() {
    assert!(S7PlusFrame::decode(&[0x72, 0x01, 0x00, 0x00, 0x72, 0x02, 0x00, 0x00]).is_err());
}

#[test]
fn frame_decode_truncated_returns_err() {
    assert!(S7PlusFrame::decode(&[0x72, 0x01, 0x00, 0x04, 0xAA, 0xBB]).is_err());
}

const KEY: &[u8] = b"test_key_32bytes_0000000000000000";

#[test]
fn integrity_block_encode_decode_v1() {
    let data = b"payload data";
    let mut buf = data.to_vec();
    append_integrity_v1v2(&mut buf, KEY, 1).unwrap();
    let ((id, _digest), _) = decode_integrity_tail(&buf[data.len()..]).unwrap();
    assert_eq!(id, 1);
}

#[test]
fn integrity_digest_is_34_bytes() {
    let mut buf = Vec::new();
    append_integrity_v1v2(&mut buf, KEY, 1).unwrap();
    assert_eq!(buf.len(), 34);
}

#[test]
fn integrity_verify_v1v2_ok() {
    let mut buf = b"test frame bytes".to_vec();
    append_integrity_v1v2(&mut buf, KEY, 5).unwrap();
    assert_eq!(verify_v1v2(&buf, KEY).unwrap(), 5);
}

#[test]
fn integrity_verify_v1v2_tampered_fails() {
    let mut frame = b"test frame bytes".to_vec();
    append_integrity_v1v2(&mut frame, KEY, 5).unwrap();
    frame[0] ^= 0xFF;
    assert!(verify_v1v2(&frame, KEY).is_err());
}

#[test]
fn integrity_block_id_roundtrip() {
    for id in [0u32, 1, 127, 128, 300] {
        let mut buf = Vec::new();
        append_integrity_v1v2(&mut buf, KEY, id).unwrap();
        let ((decoded_id, _), _) = decode_integrity_tail(&buf).unwrap();
        assert_eq!(decoded_id, id, "id mismatch for {id}");
    }
}

#[test]
fn integrity_digest_depends_on_bytes_and_key() {
    let mut a = b"abc".to_vec();
    append_integrity_v1v2(&mut a, KEY, 2).unwrap();
    let mut b = b"abd".to_vec();
    append_integrity_v1v2(&mut b, KEY, 2).unwrap();
    let mut c = b"abc".to_vec();
    append_integrity_v1v2(&mut c, b"other key", 2).unwrap();
    assert_eq!(&a[3..5], &[0x02, 0x20]);
    assert_ne!(&a[5..], &b[5..]);
    assert_ne!(&a[5..], &c[5..]);
    let ((_, digest), used) = decode_integrity_tail(&a[3..]).unwrap();
    assert_eq!(used, 34);
    assert_eq!(&digest[..], &a[5..]);
    assert!(verify_v1v2(&a, b"other key").is_err());
}

#[test]
fn get_var_request_function_code() {
    let req = GetVarRequest { seqnum: 1, session_id: 0xDEAD0001, crc: 0xABCD1234, lid: 2 };
    let mut buf = Vec::new();
    req.encode(&mut buf);
    assert_eq!(u16::from_be_bytes([buf[3], buf[4]]), 0x054C);
}

#[test]
fn get_var_request_session_id_position() {
    let req = GetVarRequest { seqnum: 2, session_id: 0x12345678, crc: 0xAABBCCDD, lid: 1 };
    let mut buf = Vec::new();
    req.encode(&mut buf);
    let sid = u32::from_be_bytes([buf[9], buf[10], buf[11], buf[12]]);
    assert_eq!(sid, 0x12345678);
}

#[test]
fn set_var_request_function_code() {
    let req = SetVarRequest {
        seqnum: 3,
        session_id: 5,
        crc: 0x11223344,
        lid: 1,
        value: vec![0x3F, 0x80, 0x00, 0x00],
    };
    let mut buf = Vec::new();
    req.encode(&mut buf);
    assert_eq!(u16::from_be_bytes([buf[3], buf[4]]), 0x0542);
}

#[test]
fn get_var_response_decode() {
    let mut buf = vec![0x32, 0x00, 0x00, 0x05, 0x4C, 0x00, 0x00, 0x00, 0x01];
    buf.extend_from_slice(&0x0000_0005u32.to_be_bytes());
    buf.push(0x00);
    buf.push(0x0A);
    buf.extend_from_slice(&4u16.to_be_bytes());
    buf.extend_from_slice(&[0x3F, 0x80, 0x00, 0x00]);
    let (resp, _) = GetVarResponse::decode(&buf).unwrap();
    assert_eq!(resp.return_code, 0x0A);
    assert_eq!(&resp.value[..], &[0x3F, 0x80, 0x00, 0x00]);
}

#[test]
fn create_object_request_wire_length() {
    let req = CreateObjectRequest::new(1);
    let mut buf = Vec::new();
    req.encode(&mut buf);
    assert_eq!(buf.len(), 78);
}

#[test]
fn create_object_request_function_code() {
    let req = CreateObjectRequest::new(1);
    let mut buf = Vec::new();
    req.encode(&mut buf);
    assert_eq!(u16::from_be_bytes([buf[3], buf[4]]), 0x04CA);
}

#[test]
fn create_object_response_decode_from_bytes() {
    let session_id: u32 = 0x0000_001A;
    let mut buf = vec![0x32, 0x00, 0x00, 0x04, 0xCA, 0x00, 0x00, 0x00, 0x01];
    buf.extend_from_slice(&session_id.to_be_bytes());
    buf.push(0x00);
    let (resp, _) = CreateObjectResponse::decode(&buf).unwrap();
    assert_eq!(resp.session_id, session_id);
}

#[test]
fn vlq_single_byte() {
    let mut buf = Vec::new();
    encode_vlq(0x2A, &mut buf);
    assert_eq!(&buf[..], &[0x2A]);
}

#[test]
fn vlq_two_bytes() {
    let mut buf = Vec::new();
    encode_vlq(300, &mut buf);
    assert_eq!(&buf[..], &[0x82, 0x2C]);
}

#[test]
fn vlq_decode_single() {
    assert_eq!(decode_vlq(&[0x2A]).unwrap().0, 0x2A);
}

#[test]
fn vlq_decode_two_bytes() {
    assert_eq!(decode_vlq(&[0x82, 0x2C]).unwrap(), (300, 2));
}

#[test]
fn vlq_roundtrip_large() {
    for v in [0u32, 1, 127, 128, 255, 300, 16383, 16384, 2097151, 2097152, u32::MAX] {
        let mut buf = Vec::new();
        encode_vlq(v, &mut buf);
        assert_eq!(decode_vlq(&buf).unwrap(), (v, buf.len()), "roundtrip failed for {v}");
    }
}

#[test]
fn vlq_decode_truncated_returns_err() {
    assert!(decode_vlq(&[0x82]).is_err());
}

#[test]
fn vlq_decode_overflow_returns_err() {
    assert!(decode_vlq(&[0x90, 0x80, 0x80, 0x80, 0x00]).is_err());
}

#[test]
fn frame_too_long_message_names_the_size() {
    let f = S7PlusFrame { version: Version::V1, data: vec![0u8; 65536] };
    let mut buf = Vec::new();
    match f.encode(&mut buf) {
        Err(snap7::error::ProtoError::EncodingFailed(m)) => {
            assert_eq!(m, "data too long: 65536 bytes (max 65535)")
        }
        other => panic!("unexpected {:?}", other),
    }
    assert!(buf.is_empty());
}

#[test]
fn vlq_decode_error_texts() {
    match decode_vlq(&[0x90, 0x80, 0x80, 0x80, 0x00]) {
        Err(snap7::error::ProtoError::EncodingFailed(m)) => assert_eq!(m, "VLQ value exceeds u32"),
        other => panic!("unexpected {other:?}"),
    }
    match decode_vlq(&[0x81, 0x80, 0x80, 0x80, 0x80, 0x00]) {
        Err(snap7::error::ProtoError::EncodingFailed(m)) => assert_eq!(m, "VLQ overflow: more than 5 bytes"),
        other => panic!("unexpected {other:?}"),
    }
}

#[test]
fn integrity_tail_with_oversized_id_is_refused() {
    let mut buf = vec![0x90, 0x80, 0x80, 0x80, 0x00, 0x20];
    buf.extend_from_slice(&[0u8; 32]);
    match decode_integrity_tail(&buf) {
        Err(snap7::error::ProtoError::EncodingFailed(m)) => assert_eq!(m, "VLQ value exceeds u32"),
        other => panic!("unexpected {other:?}"),
    }
}
