use snap7::proto::s7::clock::PlcDateTime;
use snap7::proto::s7::header::{PduType, S7Header};
use snap7::proto::s7::negotiate::{NegotiateRequest, NegotiateResponse};

fn clock_roundtrip(dt: PlcDateTime) -> PlcDateTime {
    let mut buf = Vec::new();
    dt.encode(&mut buf);
    assert_eq!(buf.len(), 8);
    PlcDateTime::decode(&buf).unwrap().0
}

#[test]
fn clock_roundtrip_2024() {
    let dt = PlcDateTime {
        year: 2024,
        month: 6,
        day: 15,
        hour: 10,
        minute: 30,
        second: 0,
        millisecond: 0,
        weekday: 7,
    };
    assert_eq!(clock_roundtrip(dt), dt);
}

#[test]
fn clock_roundtrip_1999() {
    let dt = PlcDateTime {
        year: 1999,
        month: 12,
        day: 31,
        hour: 23,
        minute: 59,
        second: 59,
        millisecond: 990,
        weekday: 6,
    };
    assert_eq!(clock_roundtrip(dt), dt);
}

#[test]
fn clock_roundtrip_with_milliseconds() {
    let dt = PlcDateTime {
        year: 2024,
        month: 1,
        day: 1,
        hour: 0,
        minute: 0,
        second: 0,
        millisecond: 123,
        weekday: 1,
    };
    assert_eq!(clock_roundtrip(dt).millisecond, 123);
}

#[test]
fn clock_decode_truncated_returns_err() {
    assert!(PlcDateTime::decode(b"\x24\x06\x15").is_err());
}

#[test]
fn clock_encode_is_8_bytes() {
    let dt = PlcDateTime {
        year: 2000,
        month: 1,
        day: 1,
        hour: 0,
        minute: 0,
        second: 0,
        millisecond: 0,
        weekday: 1,
    };
    let mut buf = Vec::new();
    dt.encode(&mut buf);
    assert_eq!(buf.len(), 8);
}

#[test]
fn clock_bcd_wire_bytes() {
    let dt = PlcDateTime {
        year: 2024,
        month: 6,
        day: 15,
        hour: 10,
        minute: 30,
        second: 5,
        millisecond: 123,
        weekday: 7,
    };
    let mut buf = Vec::new();
    dt.encode(&mut buf);
    assert_eq!(buf, vec![0x24, 0x06, 0x15, 0x10, 0x30, 0x05, 0x12, 0x37]);
    assert_eq!(PlcDateTime::to_bcd(59), 0x59);
    assert_eq!(PlcDateTime::from_bcd(0x42), 42);
}

#[test]
fn s7_header_job_roundtrip() {
    let h = S7Header {
        pdu_type: PduType::Job,
        reserved: 0,
        pdu_ref: 1,
        param_len: 8,
        data_len: 0,
        error_class: None,
        error_code: None,
    };
    let mut buf = Vec::new();
    h.encode(&mut buf);
    assert_eq!(buf.len(), 10);
    let (decoded, used) = S7Header::decode(&buf).unwrap();
    assert_eq!(used, 10);
    assert_eq!(decoded.pdu_type, PduType::Job);
    assert_eq!(decoded.pdu_ref, 1);
    assert_eq!(decoded.param_len, 8);
    assert!(decoded.error_class.is_none());
}

#[test]
fn s7_header_ackdata_roundtrip() {
    let h = S7Header {
        pdu_type: PduType::AckData,
        reserved: 0,
        pdu_ref: 2,
        param_len: 8,
        data_len: 4,
        error_class: Some(0),
        error_code: Some(0),
    };
    let mut buf = Vec::new();
    h.encode(&mut buf);
    assert_eq!(buf.len(), 12);
    let (decoded, used) = S7Header::decode(&buf).unwrap();
    assert_eq!(used, 12);
    assert_eq!(decoded.pdu_type, PduType::AckData);
    assert_eq!(decoded.error_class, Some(0));
    assert_eq!(decoded.error_code, Some(0));
}

#[test]
fn s7_header_wrong_magic_returns_err() {
    let raw = &[0x00u8, 0x01, 0x00, 0x00, 0x00, 0x01, 0x00, 0x08, 0x00, 0x00];
    assert!(S7Header::decode(raw).is_err());
}

#[test]
fn s7_header_truncated_returns_err() {
    assert!(S7Header::decode(b"\x32\x01\x00\x00").is_err());
}

#[test]
fn negotiate_request_roundtrip() {
    let req = NegotiateRequest { max_amq_calling: 1, max_amq_called: 1, pdu_length: 480 };
    let mut buf = Vec::new();
    req.encode(&mut buf);
    let decoded = NegotiateRequest::decode(&buf).unwrap();
    assert_eq!(decoded.pdu_length, 480);
    assert_eq!(decoded.max_amq_calling, 1);
}

#[test]
fn negotiate_response_roundtrip() {
    let resp = NegotiateResponse { max_amq_calling: 1, max_amq_called: 1, pdu_length: 240 };
    let mut buf = Vec::new();
    resp.encode(&mut buf);
    let decoded = NegotiateResponse::decode(&buf).unwrap();
    assert_eq!(decoded.pdu_length, 240);
}

#[test]
fn negotiate_request_truncated_returns_err() {
    assert!(NegotiateRequest::decode(b"\xF0\x00\x00\x01").is_err());
}

#[test]
fn negotiate_request_wrong_func_returns_err() {
    let raw = &[0x04u8, 0x00, 0x00, 0x01, 0x00, 0x01, 0x01, 0xE0];
    assert!(NegotiateRequest::decode(raw).is_err());
}

#[test]
fn negotiate_response_wrong_func_returns_err() {
    let raw = &[0x04u8, 0x00, 0x00, 0x01, 0x00, 0x01, 0x01, 0xE0];
    assert!(NegotiateResponse::decode(raw).is_err());
}
