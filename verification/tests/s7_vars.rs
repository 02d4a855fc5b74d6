use snap7::proto::s7::header::{Area, TransportSize};
use snap7::proto::s7::read_var::{AddressItem, DataItem, ReadVarRequest, ReadVarResponse};
use snap7::proto::s7::szl::{SzlRequest, SzlResponse};
use snap7::proto::s7::write_var::{WriteItem, WriteVarRequest, WriteVarResponse};

fn make_item(db: u16, start: u32, len: u16) -> AddressItem {
    AddressItem {
        area: Area::DataBlock,
        db_number: db,
        start,
        bit_offset: 0,
        length: len,
        transport: TransportSize::Byte,
    }
}

#[test]
fn read_var_request_roundtrip() {
    let req = ReadVarRequest { items: vec![make_item(1, 0, 4)] };
    let mut buf = Vec::new();
    req.encode(&mut buf);
    let (decoded, _) = ReadVarRequest::decode(&buf).unwrap();
    assert_eq!(decoded.items.len(), 1);
    assert_eq!(decoded.items[0].db_number, 1);
    assert_eq!(decoded.items[0].start, 0);
    assert_eq!(decoded.items[0].length, 4);
}

#[test]
fn read_var_request_multi_item() {
    let req = ReadVarRequest { items: vec![make_item(1, 0, 2), make_item(2, 10, 4)] };
    let mut buf = Vec::new();
    req.encode(&mut buf);
    let (decoded, _) = ReadVarRequest::decode(&buf).unwrap();
    assert_eq!(decoded.items.len(), 2);
    assert_eq!(decoded.items[1].db_number, 2);
    assert_eq!(decoded.items[1].start, 10);
}

#[test]
fn read_var_request_byte_address_encoding() {
    let req = ReadVarRequest { items: vec![make_item(1, 4, 1)] };
    let mut buf = Vec::new();
    req.encode(&mut buf);
    assert_eq!(buf[9 + 2], 0x00);
    assert_eq!(buf[10 + 2], 0x00);
    assert_eq!(buf[11 + 2], 0x20);
}

#[test]
fn read_var_response_decode_ok() {
    let raw: &[u8] = &[0xFF, 0x04, 0x00, 0x10, 0xDE, 0xAD];
    let (resp, _) = ReadVarResponse::decode(raw, 1).unwrap();
    assert_eq!(resp.items.len(), 1);
    assert_eq!(resp.items[0].return_code, 0xFF);
    assert_eq!(resp.items[0].data.as_slice(), &[0xDE, 0xAD]);
}

#[test]
fn read_var_response_decode_odd_length_padded() {
    let raw: &[u8] = &[0xFF, 0x02, 0x00, 0x08, 0xAB, 0x00, 0xFF, 0x02, 0x00, 0x08, 0xCD, 0x00];
    let (resp, _) = ReadVarResponse::decode(raw, 2).unwrap();
    assert_eq!(resp.items[0].data.as_slice(), &[0xAB]);
    assert_eq!(resp.items[1].data.as_slice(), &[0xCD]);
}

#[test]
fn read_var_response_encode_even_length() {
    let resp = ReadVarResponse { items: vec![DataItem { return_code: 0xFF, data: vec![0xDE, 0xAD] }] };
    let mut buf = Vec::new();
    resp.encode(&mut buf);
    let (decoded, _) = ReadVarResponse::decode(&buf, 1).unwrap();
    assert_eq!(decoded.items[0].return_code, 0xFF);
    assert_eq!(decoded.items[0].data.as_slice(), &[0xDE, 0xAD]);
}

#[test]
fn read_var_response_encode_odd_length_padded() {
    let resp = ReadVarResponse { items: vec![DataItem { return_code: 0xFF, data: vec![0xAB] }] };
    let mut buf = Vec::new();
    resp.encode(&mut buf);
    assert_eq!(buf.len(), 6);
    assert_eq!(buf[5], 0x00);
}

#[test]
fn read_var_request_truncated_returns_err() {
    assert!(ReadVarRequest::decode(b"\x04").is_err());
}

#[test]
fn read_var_request_wrong_func_returns_err() {
    let raw: &[u8] = &[0x05, 0x01];
    assert!(ReadVarRequest::decode(raw).is_err());
}

#[test]
fn read_var_request_wrong_item_spec_returns_err() {
    let mut raw = vec![0x04u8, 0x01, 0xFF];
    raw.extend_from_slice(&[0x0A, 0x10, 0x04, 0x00, 0x04, 0x00, 0x01, 0x84, 0x00, 0x00, 0x00]);
    assert!(ReadVarRequest::decode(&raw).is_err());
}

#[test]
fn szl_request_encode_params_length() {
    let req = SzlRequest { szl_id: 0x0011, szl_index: 0x0000 };
    let mut buf = Vec::new();
    req.encode_params(&mut buf);
    assert_eq!(buf.len(), 8);
}

#[test]
fn szl_request_encode_data_length() {
    let req = SzlRequest { szl_id: 0x0011, szl_index: 0x0001 };
    let mut buf = Vec::new();
    req.encode_data(&mut buf);
    assert_eq!(buf.len(), 8);
}

#[test]
fn szl_request_encode_data_contains_id_index() {
    let req = SzlRequest { szl_id: 0x001C, szl_index: 0x0000 };
    let mut b = Vec::new();
    req.encode_data(&mut b);
    assert_eq!(b[0], 0xFF);
    assert_eq!(b[1], 0x09);
    assert_eq!(&b[2..4], &[0x00, 0x04]);
    assert_eq!(&b[4..6], &[0x00, 0x1C]);
    assert_eq!(&b[6..8], &[0x00, 0x00]);
}

#[test]
fn szl_request_roundtrip() {
    let req = SzlRequest { szl_id: 0x0011, szl_index: 0x0000 };
    let mut buf = Vec::new();
    req.encode(&mut buf);
    let (decoded, _) = SzlRequest::decode(&buf).unwrap();
    assert_eq!(decoded.szl_id, 0x0011);
    assert_eq!(decoded.szl_index, 0x0000);
}

#[test]
fn szl_response_decode_with_data() {
    let mut raw: Vec<u8> = vec![];
    raw.extend_from_slice(&[0x00, 0x1C]);
    raw.extend_from_slice(&[0x00, 0x00]);
    raw.extend_from_slice(&[0xDE, 0xAD, 0xBE, 0xEF]);
    let (resp, _) = SzlResponse::decode(&raw).unwrap();
    assert_eq!(resp.szl_id, 0x001C);
    assert_eq!(resp.szl_index, 0x0000);
    assert_eq!(resp.data.as_slice(), &[0xDE, 0xAD, 0xBE, 0xEF]);
}

#[test]
fn szl_response_decode_truncated_returns_err() {
    assert!(SzlResponse::decode(b"\x00\x1C\x00\x00\x00\x22").is_err());
}

#[test]
fn szl_request_truncated_returns_err() {
    assert!(SzlRequest::decode(b"\x00\x01\x12").is_err());
}

fn make_write_item(db: u16, start: u32, data: &[u8]) -> WriteItem {
    WriteItem {
        address: AddressItem {
            area: Area::DataBlock,
            db_number: db,
            start,
            bit_offset: 0,
            length: data.len() as u16,
            transport: TransportSize::Byte,
        },
        data: data.to_vec(),
    }
}

#[test]
fn write_var_response_decode_ok() {
    let (resp, _) = WriteVarResponse::decode(&[0xFF], 1).unwrap();
    assert_eq!(resp.return_codes[0], 0xFF);
}

#[test]
fn write_var_response_decode_multi() {
    let (resp, _) = WriteVarResponse::decode(&[0xFF, 0xFF, 0x05], 3).unwrap();
    assert_eq!(resp.return_codes, vec![0xFF, 0xFF, 0x05]);
}

#[test]
fn write_var_request_encode_structure() {
    let req = WriteVarRequest { items: vec![make_write_item(1, 0, &[0xDE, 0xAD])] };
    let mut buf = Vec::new();
    req.encode(&mut buf);
    assert_eq!(buf[0], 0x05);
    assert_eq!(buf[1], 1);
    assert_eq!(buf[14], 0x00);
    assert_eq!(buf[15], TransportSize::Byte.as_u8());
    assert_eq!(buf[16], 0x00);
    assert_eq!(buf[17], 0x10);
    assert_eq!(buf[18], 0xDE);
    assert_eq!(buf[19], 0xAD);
}

#[test]
fn write_var_request_odd_data_padded() {
    let req = WriteVarRequest { items: vec![make_write_item(1, 0, &[0xAB])] };
    let mut buf = Vec::new();
    req.encode(&mut buf);
    assert_eq!(buf.len(), 20);
    assert_eq!(buf[19], 0x00);
}

#[test]
fn write_var_response_truncated_returns_err() {
    assert!(WriteVarResponse::decode(&[], 1).is_err());
}

#[test]
fn write_var_request_encode_decode_roundtrip() {
    let item = make_write_item(3, 4, &[0x11, 0x22, 0x33, 0x44]);
    let req = WriteVarRequest { items: vec![item] };
    let mut buf = Vec::new();
    req.encode(&mut buf);
    let (decoded, _) = WriteVarRequest::decode(&buf).unwrap();
    assert_eq!(decoded.items.len(), 1);
    assert_eq!(decoded.items[0].address.db_number, 3);
    assert_eq!(decoded.items[0].address.start, 4);
    assert_eq!(decoded.items[0].data.as_slice(), &[0x11, 0x22, 0x33, 0x44]);
}

#[test]
fn write_var_request_decode_wrong_func_returns_err() {
    assert!(WriteVarRequest::decode(&[0x04, 0x01]).is_err());
}
