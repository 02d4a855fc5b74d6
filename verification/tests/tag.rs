use snap7::error::Error;
use snap7::proto::s7::header::{Area, TransportSize};
use snap7::tag::parse_tag;

#[test]
fn parse_db_real() {
    let tag = parse_tag("DB1,REAL4").unwrap();
    assert_eq!(tag.db_number, 1);
    assert_eq!(tag.byte_offset, 4);
    assert_eq!(tag.transport, TransportSize::Real);
}

#[test]
fn parse_db_word() {
    let tag = parse_tag("DB2,WORD10").unwrap();
    assert_eq!(tag.db_number, 2);
    assert_eq!(tag.byte_offset, 10);
    assert_eq!(tag.transport, TransportSize::Word);
}

#[test]
fn parse_db_dint() {
    let tag = parse_tag("DB70,DINT0").unwrap();
    assert_eq!(tag.db_number, 70);
    assert_eq!(tag.byte_offset, 0);
    assert_eq!(tag.transport, TransportSize::DInt);
    assert_eq!(tag.bit_offset, 0);
}

#[test]
fn parse_db_bit_access() {
    let tag = parse_tag("DB70,332.0").unwrap();
    assert_eq!(tag.db_number, 70);
    assert_eq!(tag.byte_offset, 332);
    assert_eq!(tag.bit_offset, 0);
    assert_eq!(tag.transport, TransportSize::Bit);
}

#[test]
fn parse_db_bit_access_bit7() {
    let tag = parse_tag("DB70,332.7").unwrap();
    assert_eq!(tag.db_number, 70);
    assert_eq!(tag.byte_offset, 332);
    assert_eq!(tag.bit_offset, 7);
    assert_eq!(tag.transport, TransportSize::Bit);
}

#[test]
fn parse_db_bit_invalid_bit() {
    let result = parse_tag("DB70,332.8");
    assert!(result.is_err());
}

#[test]
fn parse_invalid_returns_err() {
    assert!(parse_tag("NOTVALID").is_err());
}

#[test]
fn parse_dot_separator_real() {
    let tag = parse_tag("DB170.REAL262").unwrap();
    assert_eq!(tag.db_number, 170);
    assert_eq!(tag.byte_offset, 262);
    assert_eq!(tag.transport, TransportSize::Real);
}

#[test]
fn parse_dot_separator_word() {
    let tag = parse_tag("DB1.WORD10").unwrap();
    assert_eq!(tag.db_number, 1);
    assert_eq!(tag.byte_offset, 10);
    assert_eq!(tag.transport, TransportSize::Word);
}

#[test]
fn parse_comma_separator_unchanged() {
    let a = parse_tag("DB170,REAL262").unwrap();
    let b = parse_tag("DB170.REAL262").unwrap();
    assert_eq!(a.db_number, b.db_number);
    assert_eq!(a.byte_offset, b.byte_offset);
    assert_eq!(a.transport, b.transport);
}

#[test]
fn parse_bit_access_dot_not_confused() {
    let tag = parse_tag("DB70,332.0").unwrap();
    assert_eq!(tag.transport, TransportSize::Bit);
    assert_eq!(tag.byte_offset, 332);
    assert_eq!(tag.bit_offset, 0);
}

fn message_of(r: Result<snap7::tag::TagAddress, Error>) -> (u32, String) {
    match r {
        Err(Error::PlcError { code, message }) => (code, message),
        other => panic!("expected a PLC error, got {:?}", other),
    }
}

#[test]
fn tag_errors_name_the_fault_and_the_tag() {
    assert_eq!(message_of(parse_tag("NOTVALID")), (0, "invalid tag: NOTVALID".to_string()));
    assert_eq!(
        message_of(parse_tag("DB70,332.8")),
        (0, "bit offset must be 0-7: DB70,332.8".to_string())
    );
    assert_eq!(
        message_of(parse_tag("MB1,REAL4")),
        (0, "unsupported area in tag: MB1,REAL4".to_string())
    );
    assert_eq!(
        message_of(parse_tag("DBX,REAL4")),
        (0, "invalid DB number in tag: DBX,REAL4".to_string())
    );
    assert_eq!(
        message_of(parse_tag("DB1,FLOAT4")),
        (0, "unsupported type in tag: DB1,FLOAT4".to_string())
    );
}

#[test]
fn tag_lowercase_and_defaults() {
    let tag = parse_tag("db3,int6").unwrap();
    assert_eq!(tag.db_number, 3);
    assert_eq!(tag.byte_offset, 6);
    assert_eq!(tag.transport, TransportSize::Int);
    assert_eq!(tag.area, Area::DataBlock);
    assert_eq!(tag.element_count, 1);
}

#[test]
fn tag_parts_are_upper_cased_as_unicode_text() {
    let tag = parse_tag("DB1,\u{131}nt4").unwrap();
    assert_eq!(tag.db_number, 1);
    assert_eq!(tag.byte_offset, 4);
    assert_eq!(tag.transport, TransportSize::Int);
}

#[test]
fn tags_read_without_regard_to_case() {
    assert_eq!(parse_tag("db1,real4").unwrap(), parse_tag("DB1,REAL4").unwrap());
    assert_eq!(parse_tag("Db7.dWord20").unwrap(), parse_tag("DB7,DWORD20").unwrap());
    let t = parse_tag("db1,real4").unwrap();
    assert_eq!((t.db_number, t.byte_offset, t.transport), (1, 4, TransportSize::Real));
}
