use snap7::partner::{brecv_ack, brecv_fragment, bsend_ack, bsend_check, bsend_frame, bsend_slices, Error};

#[test]
fn bsend_fragments_rejoin() {
    let data: Vec<u8> = (0..1000u32).map(|i| (i % 251) as u8).collect();
    let plan = bsend_slices(data.len(), 240);
    assert_eq!(plan[0], (0, 204));
    assert_eq!(plan.last().unwrap().1, data.len());
    let mut joined = Vec::new();
    for (k, &(from, to)) in plan.iter().enumerate() {
        let frame = bsend_frame(7, k as u8, 3, 0xAABBCCDD, &data, from, to);
        let (id, bytes, last) = brecv_fragment(&frame, k == 0).unwrap();
        assert_eq!(id, 0xAABBCCDD);
        assert_eq!(last, k + 1 == plan.len());
        joined.extend_from_slice(&bytes);
    }
    assert_eq!(joined, data);
}

#[test]
fn bsend_limits_and_acks() {
    assert!(bsend_check(65536).is_ok());
    assert!(matches!(bsend_check(65537), Err(Error::InvalidPdu(_))));
    assert_eq!(bsend_slices(0, 480), vec![]);
    assert_eq!(bsend_slices(5, 10), vec![(0, 1), (1, 2), (2, 3), (3, 4), (4, 5)]);
    let ack = brecv_ack(3, 4);
    assert_eq!(bsend_ack(&ack).unwrap(), 4);
    assert!(brecv_fragment(&[0u8; 5], true).is_err());
}

#[test]
fn bsend_fragments_gather_back_to_the_block() {
    let data: Vec<u8> = (0..4000u32).map(|i| (i % 251) as u8).collect();
    let plan = snap7::partner::bsend_slices(data.len(), 240);
    assert!(plan.len() > 1);
    let mut got = Vec::new();
    let mut id = 0;
    for (k, (from, to)) in plan.iter().enumerate() {
        let frame = snap7::partner::bsend_frame(7, k as u8, 1, 0xDEADBEEF, &data, *from, *to);
        let (rid, bytes, last) = snap7::partner::brecv_fragment(&frame, k == 0).unwrap();
        got.extend_from_slice(&bytes);
        id = rid;
        assert_eq!(last, k + 1 == plan.len());
    }
    assert_eq!(id, 0xDEADBEEF);
    assert_eq!(got, data);
}
