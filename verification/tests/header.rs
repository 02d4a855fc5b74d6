use snap7::proto::s7::header::{Area, PduType, TransportSize};

#[test]
fn pdu_type_try_from_invalid_returns_err() {
    assert!(PduType::try_from(0xFF).is_err());
}

#[test]
fn area_try_from_invalid_returns_err() {
    assert!(Area::try_from(0x00).is_err());
}

#[test]
fn transport_size_try_from_roundtrip() {
    assert_eq!(TransportSize::try_from(0x08).unwrap(), TransportSize::Real);
    assert!(TransportSize::try_from(0xFE).is_err());
}
