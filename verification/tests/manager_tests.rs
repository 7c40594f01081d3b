use whatspace::bundle_manager::{BundleManager, STORE_CAPACITY};
use whatspace::model::{Bundle, BundleKind, MsgStatus, Node};

/// The instant `secs` seconds after the Unix epoch, in nanoseconds.
fn at(secs: i64) -> i128 {
    secs as i128 * 1_000_000_000
}

fn node(id: u128) -> Node {
    Node { id, name: format!("n{}", id), address: "127.0.0.1".to_string(), port: 9000, peers: vec![] }
}

fn data(id: u128) -> Bundle {
    Bundle {
        id,
        source: node(1),
        destination: node(2),
        timestamp: 1_000,
        timestamp_nanos: 0,
        ttl: 60,
        kind: BundleKind::Data { msg: "m".to_string() },
        shipment_status: MsgStatus::Pending,
    }
}

fn ack(id: u128, data_id: u128) -> Bundle {
    Bundle {
        id,
        source: node(2),
        destination: node(1),
        timestamp: 1_000,
        timestamp_nanos: 0,
        ttl: 60,
        kind: BundleKind::Ack { ack_bundle_id: data_id },
        shipment_status: MsgStatus::Pending,
    }
}

#[test]
fn new_manager_store() {
    let m = BundleManager::new(4, "alice".to_string(), "/srv/node/".to_string());
    assert_eq!(m.node_id, 4);
    assert_eq!(m.storage.capacity, STORE_CAPACITY);
    assert_eq!(m.storage.capacity, 100);
    assert_eq!(m.storage.storage_dir, "/srv/node/./bundles/alice");
    assert!(m.all().is_empty());
}

#[test]
fn upsert_saves_then_updates() {
    let mut m = BundleManager::new(4, "a".to_string(), String::new());
    assert!(m.upsert_bundle_at(&data(7), at(1_000)));
    let mut b = data(7);
    b.shipment_status = MsgStatus::Delivered;
    assert!(m.upsert_bundle_at(&b, at(1_000)));
    assert_eq!(m.all().len(), 1);
    assert_eq!(m.get(7).unwrap().shipment_status, MsgStatus::Delivered);
}

#[test]
fn incoming_ack_removes_data_and_is_kept_once() {
    let mut m = BundleManager::new(4, "a".to_string(), String::new());
    assert!(m.save_bundle_at(&data(7), at(1_000)));
    assert!(m.handle_incoming_ack_at(&ack(50, 7), at(1_000)));
    assert!(!m.has_bundle(7));
    assert!(m.has_bundle(50));
    assert!(m.has_ack_for_data_bundle(7));
    // A second acknowledgement of the same data bundle is not new.
    assert!(!m.handle_incoming_ack_at(&ack(51, 7), at(1_000)));
    assert!(!m.has_bundle(51));
    // Anything but an acknowledgement is refused.
    assert!(!m.handle_incoming_ack_at(&data(9), at(1_000)));
}

#[test]
fn summary_ids_in_store_order() {
    let mut m = BundleManager::new(4, "a".to_string(), String::new());
    assert!(m.save_bundle_at(&data(3), at(1_000)));
    assert!(m.save_bundle_at(&data(1), at(1_000)));
    assert_eq!(m.summary_ids(), vec![3, 1]);
    assert!(m.delete_bundle(3));
    assert_eq!(m.summary_ids(), vec![1]);
}
