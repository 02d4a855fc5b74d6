use snap7::client::control::{datetime_from_unix_secs, get_param, set_param};
use snap7::client::{next_pdu_ref, plan_read_batches, plan_write_batches, tpkt_payload_len, MultiReadItem, MultiWriteItem};
use snap7::error::{Error, ProtoError};
use snap7::proto::s7commplus::frame::Version;
use snap7::types::ConnectParams;

#[test]
fn read_batches_cover_every_item_once() {
    let items: Vec<MultiReadItem> = (0..30).map(|i| MultiReadItem::db(1, i * 10, 10)).collect();
    let plan = plan_read_batches(&items, 240);
    assert_eq!(plan.first().unwrap().0, 0);
    assert_eq!(plan.last().unwrap().1, items.len());
    for w in plan.windows(2) {
        assert_eq!(w[0].1, w[1].0);
        assert!(w[0].0 < w[0].1);
    }
    assert!(plan.len() > 1);
    assert_eq!(plan_read_batches(&[], 240), vec![]);
}

#[test]
fn write_batches_cover_every_item_once() {
    let items: Vec<MultiWriteItem> =
        (0..12).map(|i| MultiWriteItem::db(2, i * 100, vec![0u8; 60])).collect();
    let plan = plan_write_batches(&items, 240);
    assert_eq!(plan.first().unwrap().0, 0);
    assert_eq!(plan.last().unwrap().1, items.len());
    for w in plan.windows(2) {
        assert_eq!(w[0].1, w[1].0);
    }
}

#[test]
fn pdu_refs_wrap() {
    assert_eq!(next_pdu_ref(1), 2);
    assert_eq!(next_pdu_ref(u16::MAX), 0);
}

#[test]
fn tpkt_lengths() {
    assert_eq!(tpkt_payload_len(&[3, 0, 0, 30]).unwrap(), 26);
    assert!(matches!(tpkt_payload_len(&[3, 0, 0, 3]), Err(Error::UnexpectedResponse)));
}

#[test]
fn unix_seconds_to_plc_clock() {
    let dt = datetime_from_unix_secs(1_718_447_400);
    assert_eq!((dt.year, dt.month, dt.day), (2024, 6, 15));
    assert_eq!((dt.hour, dt.minute, dt.second), (10, 30, 0));
    assert_eq!(dt.weekday, 0);
    let epoch = datetime_from_unix_secs(0);
    assert_eq!((epoch.year, epoch.month, epoch.day, epoch.weekday), (1970, 1, 1, 0));
    let leap = datetime_from_unix_secs(951_782_400);
    assert_eq!((leap.year, leap.month, leap.day), (2000, 2, 29));
}

#[test]
fn params_by_name() {
    let mut p = ConnectParams::default();
    assert_eq!(get_param(&p, "request_timeout").unwrap(), 10_000);
    assert_eq!(get_param(&p, "connect_timeout").unwrap(), 5_000);
    set_param(&mut p, "request_timeout", 250).unwrap();
    assert_eq!(p.request_timeout_ms, 250);
    assert!(matches!(get_param(&p, "pdu_size"), Err(Error::PlcError { code: 0, .. })));
    assert!(get_param(&p, "bogus").is_err());
    assert!(set_param(&mut p, "bogus", 1).is_err());
}

#[test]
fn oversized_frames_are_refused_with_their_size() {
    let big = vec![0u8; 65519];
    match snap7::client::request_frame_bytes(&big, &[], 1, snap7::proto::s7::header::PduType::Job) {
        Err(Error::Proto(ProtoError::EncodingFailed(m))) => {
            assert_eq!(m, "frame too large: 65536 bytes exceeds TPKT maximum of 65535")
        }
        other => panic!("unexpected {:?}", other.map(|v| v.len())),
    }
    match snap7::client::plus::frame_plus(Version::V1, &vec![0u8; 65524]) {
        Err(Error::Proto(ProtoError::EncodingFailed(m))) => {
            assert_eq!(m, "frame too large: 65536 bytes exceeds TPKT maximum of 65535")
        }
        other => panic!("unexpected {:?}", other.map(|v| v.len())),
    }
    match snap7::client::plus::frame_plus(Version::V1, &vec![0u8; 70000]) {
        Err(Error::Proto(ProtoError::EncodingFailed(m))) => assert_eq!(m, "data too long: 70000 bytes (max 65535)"),
        other => panic!("unexpected {:?}", other.map(|v| v.len())),
    }
}
