use workset_core::flow::AckTracker;
use workset_core::flow::DaemonSession;

#[test]
fn credit_exhaustion_stops_delivery_until_ack() {
    // A stream that never acknowledges stops receiving data once its
    // initial credit is consumed; an acknowledgement resumes delivery.
    let mut session = DaemonSession::new();
    session.append(&[7u8; 100]);
    let mut stream = session.open_stream(0, 10);
    let first = stream.poll(&session).unwrap();
    assert_eq!(first.len(), 10);
    // credit spent: no further data messages
    assert!(stream.poll(&session).is_none());
    assert!(stream.poll(&session).is_none());
    // an acknowledgement of the consumed bytes replenishes credit
    assert!(stream.ack(10));
    let second = stream.poll(&session).unwrap();
    assert_eq!(second.len(), 10);
    assert!(stream.poll(&session).is_none());
}

#[test]
fn acks_must_be_monotone_and_within_delivery() {
    let mut session = DaemonSession::new();
    session.append(&[1u8; 30]);
    let mut stream = session.open_stream(0, 20);
    let got = stream.poll(&session).unwrap();
    assert_eq!(got.len(), 20);
    assert!(stream.ack(15));
    // a lower cumulative count than already acknowledged is rejected
    assert!(!stream.ack(10));
    // a count beyond what was delivered is rejected
    assert!(!stream.ack(25));
    assert!(stream.ack(20));
}

#[test]
fn resume_offset_round_trip_skips_nothing_and_repeats_nothing() {
    // Bootstrap after N bytes, produce M more, attach at the reported
    // offset: the new stream delivers exactly the M new bytes.
    let mut session = DaemonSession::new();
    let first: Vec<u8> = (0u8..50).collect();
    session.append(&first);
    let offset = session.next_offset();
    assert_eq!(offset, 50);
    let fresh: Vec<u8> = (100u8..130).collect();
    session.append(&fresh);
    let mut stream = session.open_stream(offset, 1000);
    let got = stream.poll(&session).unwrap();
    assert_eq!(got, fresh);
    assert!(stream.poll(&session).is_none());
}

#[test]
fn delivery_is_contiguous_across_polls() {
    let mut session = DaemonSession::new();
    session.append(b"abcdefghij");
    let mut stream = session.open_stream(0, 4);
    assert_eq!(stream.poll(&session).unwrap(), b"abcd".to_vec());
    assert!(stream.ack(4));
    assert_eq!(stream.poll(&session).unwrap(), b"efgh".to_vec());
    assert!(stream.ack(8));
    assert_eq!(stream.poll(&session).unwrap(), b"ij".to_vec());
    assert!(stream.poll(&session).is_none());
}

#[test]
fn client_ack_tracker_is_monotone() {
    let mut t = AckTracker::new();
    assert!(t.record(0));
    assert!(t.record(10));
    assert!(t.record(10));
    assert!(!t.record(9));
    assert!(t.record(11));
}
