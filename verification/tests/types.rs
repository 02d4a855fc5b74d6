use snap7::types::{crc32_ieee, encrypt_password, BlockData, BlockType, ConnectParams};

#[test]
fn connect_params_default() {
    let p = ConnectParams::default();
    assert_eq!(p.rack, 0);
    assert_eq!(p.slot, 1);
    assert_eq!(p.pdu_size, 480);
}

#[test]
fn block_data_roundtrip() {
    let bd = BlockData {
        block_type: 0x41,
        block_number: 1,
        format: 0,
        total_length: 24,
        flags: 0,
        crc1: 0x1234,
        crc2: 0x5678,
        payload: vec![0xDE, 0xAD],
    };
    let bytes = bd.to_bytes();
    assert_eq!(bytes.len(), 22);
    let parsed = BlockData::from_bytes(&bytes).unwrap();
    assert_eq!(parsed.block_type, 0x41);
    assert_eq!(parsed.block_number, 1);
    assert_eq!(parsed.payload, vec![0xDE, 0xAD]);
}

#[test]
fn block_data_short_input_returns_none() {
    let result = BlockData::from_bytes(&[0u8; 10]);
    assert!(result.is_none());
}

#[test]
fn encrypt_8_char_password() {
    let result = encrypt_password("PASSWORD");
    assert_eq!(result.len(), 8);
    let result2 = encrypt_password("PASSWORD");
    assert_eq!(result, result2);
}

#[test]
fn encrypt_short_password_padded() {
    let result = encrypt_password("abc");
    assert_eq!((0x61u8 << 4) | (0x61u8 >> 4), 0x16);
    assert_eq!(0x16 ^ 0x55, 0x43);
    assert_eq!(result[0], 0x43);
    assert_eq!((0x20u8 << 4) | (0x20u8 >> 4), 0x02);
    assert_eq!(0x02 ^ 0x55, 0x57);
    assert_eq!(result[3], 0x57);
}

#[test]
fn encrypt_long_password_truncated() {
    let result = encrypt_password("1234567890");
    assert_eq!(result.len(), 8);
    let result8 = encrypt_password("12345678");
    assert_eq!(result, result8);
}

#[test]
fn block_type_discriminants() {
    assert_eq!(BlockType::DB.as_u8(), 0x41);
    assert_eq!(BlockType::OB.as_u8(), 0x38);
}

#[test]
fn crc32_check_value() {
    assert_eq!(crc32_ieee(b"123456789"), 0xCBF4_3926);
    assert_eq!(crc32_ieee(b""), 0);
}

#[test]
fn encrypt_password_every_byte() {
    let r = encrypt_password("PASSWORD");
    let expect: Vec<u8> = "PASSWORD"
        .bytes()
        .map(|b| ((b << 4) | (b >> 4)) ^ 0x55)
        .collect();
    assert_eq!(r.to_vec(), expect);
}
