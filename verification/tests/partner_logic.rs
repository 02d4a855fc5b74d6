use snap7::partner::counters::PartnerCounters;
use snap7::partner::transport::{
    active_connect_request, active_negotiate_request, check_cc, iso_frame, iso_payload,
    iso_rest_len, passive_connect_confirm, passive_negotiate_response,
};
use snap7::partner::{partner_pdu_size, Error, PartnerStatus};

#[test]
fn iso_frames_wrap_and_unwrap() {
    let f = iso_frame(&[0x32, 0x07]);
    assert_eq!(f, vec![0x03, 0x00, 0x00, 0x09, 0x02, 0xF0, 0x80, 0x32, 0x07]);
    let rest_len = iso_rest_len(&f[..4]).unwrap();
    assert_eq!(rest_len, 5);
    assert_eq!(iso_payload(&f[4..]).unwrap(), vec![0x32, 0x07]);
    assert!(matches!(iso_rest_len(&[3, 0, 0, 6]), Err(Error::InvalidPdu("frame too short"))));
    assert!(matches!(iso_payload(&[0x02, 0xF0]), Err(Error::InvalidPdu("missing COTP DT"))));
}

#[test]
fn fixed_handshake_frames() {
    let cr = active_connect_request();
    assert_eq!(cr.len(), 19);
    assert_eq!(cr[5], 0xE0);
    let cc = passive_connect_confirm();
    assert_eq!(cc.len(), 19);
    assert!(check_cc(&cc[4..]).is_ok());
    assert!(matches!(check_cc(&cr[4..]), Err(Error::InvalidPdu("expected COTP CC"))));
    let neg = active_negotiate_request();
    assert_eq!(neg.len(), 25);
    let resp = passive_negotiate_response();
    assert_eq!(resp.len(), 27);
    assert_eq!(partner_pdu_size(&resp[7..]).unwrap(), 480);
}

#[test]
fn counters_wrap_and_report() {
    let mut c = PartnerCounters::new();
    assert_eq!(c.status(), PartnerStatus::Disconnected);
    c.set_connected(true);
    assert_eq!(c.status(), PartnerStatus::Connected);
    assert_eq!(c.next_pdu_ref(), 1);
    assert_eq!(c.next_pdu_ref(), 2);
    c.seq = 255;
    assert_eq!(c.next_seq(), 255);
    assert_eq!(c.next_seq(), 0);
    c.add_sent(10);
    c.add_recv(4);
    c.add_sent(u64::MAX);
    assert_eq!(c.get_stats(), (9, 4));
    c.add_send_error();
    c.add_recv_error();
    c.add_recv_error();
    assert_eq!(c.get_error_counts(), (1, 2));
}
