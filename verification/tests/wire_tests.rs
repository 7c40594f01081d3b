use whatspace::model::{Bundle, BundleKind, MsgStatus, Node};
use whatspace::wire::{frame, frame_length, is_control_message, retry_after_failure, WireBundle, WireKind};

fn node(id: u128) -> Node {
    Node { id, name: "n".to_string(), address: "10.1.2.3".to_string(), port: 9001, peers: vec![id + 1, id + 2] }
}

fn bundle(kind: BundleKind) -> Bundle {
    Bundle {
        id: 0x0123456789abcdef0011223344556677,
        source: node(1),
        destination: node(5),
        timestamp: 1_700_000_000,
        timestamp_nanos: 0,
        ttl: 60,
        kind,
        shipment_status: MsgStatus::InTransit,
    }
}

#[test]
fn ids_travel_as_hyphenated_text() {
    let w = WireBundle::from_bundle(&bundle(BundleKind::Data { msg: "hi".to_string() }));
    assert_eq!(w.id, "01234567-89ab-cdef-0011-223344556677");
    assert_eq!(w.source_id, "00000000-0000-0000-0000-000000000001");
    assert_eq!(w.source_peers, vec!["00000000-0000-0000-0000-000000000002", "00000000-0000-0000-0000-000000000003"]);
    assert_eq!(w.kind, WireKind::Data);
    assert_eq!(w.kind_data, "hi");
    assert_eq!(w.shipment_status, MsgStatus::Pending);
    assert_eq!(w.source_port, 9001);
}

#[test]
fn summary_vector_is_comma_joined() {
    let w = WireBundle::from_bundle(&bundle(BundleKind::SummaryVector { ids: vec![1, 2] }));
    assert_eq!(w.kind, WireKind::SummaryVec);
    assert_eq!(w.kind_data, "00000000-0000-0000-0000-000000000001,00000000-0000-0000-0000-000000000002");
    let e = WireBundle::from_bundle(&bundle(BundleKind::SummaryVector { ids: vec![] }));
    assert_eq!(e.kind_data, "");
}

#[test]
fn data_and_ack_round_trip() {
    let b = bundle(BundleKind::Ack { ack_bundle_id: 77 });
    let back = Bundle::from_wire(WireBundle::from_bundle(&b));
    assert_eq!(back.id, b.id);
    assert_eq!(back.source.peers, b.source.peers);
    assert_eq!(back.destination.id, 5);
    assert_eq!(back.timestamp, b.timestamp);
    assert_eq!(back.shipment_status, MsgStatus::Pending);
    assert!(matches!(back.kind, BundleKind::Ack { ack_bundle_id: 77 }));
    let d = Bundle::from_wire(WireBundle::from_bundle(&bundle(BundleKind::Data { msg: "x".to_string() })));
    assert!(matches!(d.kind, BundleKind::Data { ref msg } if msg == "x"));
}

#[test]
fn unreadable_fields_fall_back() {
    let mut w = WireBundle::from_bundle(&bundle(BundleKind::RequestSV { from: 3 }));
    w.id = "not a uuid".to_string();
    w.source_port = 70_000;
    w.timestamp = i64::MAX;
    let b = Bundle::from_wire(w);
    assert_eq!(b.id, 0);
    assert_eq!(b.source.port, (70_000u32 % 65_536) as u16);
    assert_eq!(b.timestamp, 0);
    // Only the acknowledgement tag is read specially; the rest is data.
    assert!(matches!(b.kind, BundleKind::Data { ref msg } if msg == "00000000-0000-0000-0000-000000000003"));
}

#[test]
fn frames_carry_big_endian_length() {
    let f = frame(&[7, 8, 9]);
    assert_eq!(f, vec![0, 0, 0, 3, 7, 8, 9]);
    assert_eq!(frame_length([0, 0, 1, 2]), 258);
    assert_eq!(frame_length([0x12, 0x34, 0x56, 0x78]), 0x12345678);
    let big = vec![0u8; 70_000];
    let fb = frame(&big);
    assert_eq!(frame_length([fb[0], fb[1], fb[2], fb[3]]), 70_000);
}

#[test]
fn stream_dispatch_and_retry_rule() {
    assert!(is_control_message(b'{'));
    assert!(!is_control_message(0));
    assert!(retry_after_failure(1, 3));
    assert!(!retry_after_failure(3, 3));
}

#[test]
fn creation_time_is_kept_within_the_calendar() {
    for secs in [-8_334_601_228_800i64, 8_210_266_876_799] {
        let mut w = WireBundle::from_bundle(&bundle(BundleKind::Data { msg: "x".to_string() }));
        w.timestamp = secs;
        assert_eq!(Bundle::from_wire(w).timestamp, secs);
    }
    for secs in [-8_334_601_228_801i64, 8_210_266_876_800, i64::MIN] {
        let mut w = WireBundle::from_bundle(&bundle(BundleKind::Data { msg: "x".to_string() }));
        w.timestamp = secs;
        assert_eq!(Bundle::from_wire(w).timestamp, 0);
    }
}
