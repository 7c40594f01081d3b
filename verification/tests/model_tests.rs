use whatspace::ids::{ack_id_for, node_id, parse_node_id};
use whatspace::model::{find_node, known_node_id, Bundle, BundleKind, MsgStatus, Node};

/// The instant `secs` seconds after the Unix epoch, in nanoseconds.
fn at(secs: i64) -> i128 {
    secs as i128 * 1_000_000_000
}

fn node(id: u128, name: &str) -> Node {
    Node { id, name: name.to_string(), address: "10.0.0.1".to_string(), port: 9001, peers: vec![id + 1] }
}

#[test]
fn node_id_is_name_based_uuid() {
    assert_eq!(node_id("alice"), 0xc2ef90b902bc5d5393cd92652b6e1b41);
    assert_eq!(node_id("bob"), 0xef45d39704115f5e89409bdbdef3958b);
}

#[test]
fn node_new_derives_id_from_name() {
    let n = Node::new("alice", "127.0.0.1", 9001, vec![5, 6]);
    assert_eq!(n.id, node_id("alice"));
    assert_eq!(n.name, "alice");
    assert_eq!(n.address, "127.0.0.1");
    assert_eq!(n.port, 9001);
    assert_eq!(n.peers, vec![5, 6]);
}

#[test]
fn new_bundle_is_pending_with_random_id() {
    let b = Bundle::new(node(1, "a"), node(2, "b"), BundleKind::Data { msg: "hi".to_string() }, 30);
    let c = Bundle::new(node(1, "a"), node(2, "b"), BundleKind::Data { msg: "hi".to_string() }, 30);
    assert_eq!(b.shipment_status, MsgStatus::Pending);
    assert_eq!(b.ttl, 30);
    assert_eq!(b.source.id, 1);
    assert_eq!(b.destination.id, 2);
    assert_eq!((b.id >> 76) & 0xf, 4);
    assert!(b.timestamp > 1_600_000_000);
    assert!(b.timestamp_nanos < 1_000_000_000);
    assert_ne!(b.id, c.id);
    assert!(!b.is_expired());
}

#[test]
fn expiry_is_strictly_after_ttl() {
    let mut b = Bundle::new(node(1, "a"), node(2, "b"), BundleKind::Data { msg: "x".to_string() }, 10);
    b.timestamp = 1_000;
    b.timestamp_nanos = 0;
    assert!(!b.is_expired_at(at(1_000)));
    assert!(!b.is_expired_at(at(1_010)));
    assert!(b.is_expired_at(at(1_011)));
    // A clock set before the creation never makes a bundle expire.
    assert!(!b.is_expired_at(at(0)));
    b.ttl = u64::MAX;
    assert!(!b.is_expired_at(at(i64::MAX)));
}

#[test]
fn ack_swaps_endpoints() {
    let mut d = Bundle::new(node(1, "a"), node(2, "b"), BundleKind::Data { msg: "x".to_string() }, 42);
    d.shipment_status = MsgStatus::Delivered;
    let a = Bundle::new_ack(&d);
    assert_eq!(a.source.id, 2);
    assert_eq!(a.destination.id, 1);
    assert_eq!(a.ttl, 42);
    assert_eq!(a.shipment_status, MsgStatus::Pending);
    assert!(matches!(a.kind, BundleKind::Ack { ack_bundle_id } if ack_bundle_id == d.id));
    assert_ne!(a.id, d.id);
}

#[test]
fn add_and_remove_peers() {
    let mut n = node(1, "a");
    assert_eq!(n.peers, vec![2]);
    assert!(n.add_peer(9));
    assert!(!n.add_peer(9));
    assert_eq!(n.peers, vec![2, 9]);
    assert!(n.remove_peer(2));
    assert!(!n.remove_peer(2));
    assert_eq!(n.peers, vec![9]);
    n.peers = vec![4, 9, 4];
    assert!(n.remove_peer(4));
    assert_eq!(n.peers, vec![9]);
}

#[test]
fn find_first_and_last_by_name() {
    let nodes = vec![node(1, "a"), node(2, "b"), node(3, "a")];
    assert_eq!(find_node(&nodes, "a"), Some(0));
    assert_eq!(find_node(&nodes, "b"), Some(1));
    assert_eq!(find_node(&nodes, "z"), None);
    assert_eq!(known_node_id(&nodes, "a"), Some(3));
    assert_eq!(known_node_id(&nodes, "b"), Some(2));
    assert_eq!(known_node_id(&nodes, "z"), None);
}

#[test]
fn expiry_counts_whole_seconds_of_age() {
    let mut b = Bundle::new(node(1, "a"), node(2, "b"), BundleKind::Data { msg: "x".to_string() }, 10);
    b.timestamp = 1_000;
    b.timestamp_nanos = 500_000_000;
    // 10.5 s old: 10 whole seconds, not more than the time to live.
    assert!(!b.is_expired_at(at(1_011)));
    assert!(!b.is_expired_at(at(1_011) + 499_999_999));
    assert!(b.is_expired_at(at(1_011) + 500_000_000));
}

#[test]
fn ack_with_given_id_and_time() {
    let d = Bundle::new(node(1, "a"), node(2, "b"), BundleKind::Data { msg: "x".to_string() }, 42);
    let a = Bundle::ack_with(&d, 99, 1_234, 5);
    assert_eq!(a.id, 99);
    assert_eq!(a.timestamp, 1_234);
    assert_eq!(a.timestamp_nanos, 5);
    assert_eq!(a.source.id, 2);
    assert!(matches!(a.kind, BundleKind::Ack { ack_bundle_id } if ack_bundle_id == d.id));
}

#[test]
fn parse_node_id_reads_uuid_text() {
    assert_eq!(parse_node_id("c2ef90b9-02bc-5d53-93cd-92652b6e1b41"), Some(node_id("alice")));
    assert_eq!(parse_node_id("alice"), None);
}

#[test]
fn acknowledgements_of_one_bundle_share_their_id() {
    let d = Bundle::new(node(1, "a"), node(2, "b"), BundleKind::Data { msg: "x".to_string() }, 42);
    let first = Bundle::new_ack(&d);
    let second = Bundle::new_ack(&d);
    assert_eq!(first.id, second.id);
    let expected = uuid::Uuid::new_v5(&uuid::Uuid::from_u128(d.id), b"ack").as_u128();
    assert_eq!(first.id, expected);
    assert_eq!(ack_id_for(d.id), expected);
    assert_eq!(uuid::Uuid::from_u128(expected).get_version_num(), 5);
    assert_ne!(ack_id_for(d.id), ack_id_for(d.id + 1));
}

#[test]
fn bundle_with_given_id_and_time() {
    let b = Bundle::new_with(node(1, "a"), node(2, "b"), BundleKind::Data { msg: "x".to_string() }, 7, 42, 1_234, 5);
    assert_eq!(b.id, 42);
    assert_eq!(b.source.id, 1);
    assert_eq!(b.destination.id, 2);
    assert_eq!(b.ttl, 7);
    assert_eq!(b.timestamp, 1_234);
    assert_eq!(b.timestamp_nanos, 5);
    assert_eq!(b.shipment_status, MsgStatus::Pending);
    assert!(matches!(b.kind, BundleKind::Data { ref msg } if msg == "x"));
}

#[test]
fn new_bundle_reads_the_clock() {
    let b = Bundle::new(node(1, "a"), node(2, "b"), BundleKind::Data { msg: "x".to_string() }, 7);
    assert!(b.timestamp > 1_600_000_000);
    assert!(b.timestamp_nanos < 1_000_000_000);
    assert_eq!(uuid::Uuid::from_u128(b.id).get_version_num(), 4);
    assert!(!b.is_expired());
}
