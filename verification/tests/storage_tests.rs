use whatspace::model::{Bundle, BundleKind, MsgStatus, Node};
use whatspace::storage::{resolve_dir, StorageError, StorageLayer};

/// The instant `secs` seconds after the Unix epoch, in nanoseconds.
fn at(secs: i64) -> i128 {
    secs as i128 * 1_000_000_000
}

fn node(id: u128, name: &str) -> Node {
    Node { id, name: name.to_string(), address: "127.0.0.1".to_string(), port: 9000, peers: vec![] }
}

fn data(id: u128, timestamp: i64, ttl: u64) -> Bundle {
    Bundle {
        id,
        source: node(1, "alice"),
        destination: node(2, "bob"),
        timestamp,
        timestamp_nanos: 0,
        ttl,
        kind: BundleKind::Data { msg: "hello".to_string() },
        shipment_status: MsgStatus::Pending,
    }
}

fn ack(id: u128, data_id: u128, timestamp: i64) -> Bundle {
    Bundle {
        id,
        source: node(2, "bob"),
        destination: node(1, "alice"),
        timestamp,
        timestamp_nanos: 0,
        ttl: 60,
        kind: BundleKind::Ack { ack_bundle_id: data_id },
        shipment_status: MsgStatus::Pending,
    }
}

fn ids(v: &[Bundle]) -> Vec<u128> {
    v.iter().map(|b| b.id).collect()
}

#[test]
fn saved_bundle_is_found_by_id() {
    let mut st = StorageLayer::new("./bundles/t".to_string(), 10, String::new());
    assert!(st.save_bundle_at(&data(7, 100, 60), at(110)));
    let got = st.get_bundle(7).expect("stored");
    assert_eq!(got.id, 7);
    assert_eq!(got.ttl, 60);
    assert!(st.get_bundle(8).is_none());
}

#[test]
fn duplicate_id_is_refused() {
    let mut st = StorageLayer::new("d".to_string(), 10, String::new());
    assert!(st.save_bundle_at(&data(7, 100, 60), at(110)));
    assert!(!st.save_bundle_at(&data(7, 100, 60), at(110)));
    assert_eq!(st.get_all_bundles().len(), 1);
}

#[test]
fn full_store_refuses() {
    let mut st = StorageLayer::new("d".to_string(), 2, String::new());
    assert!(st.save_bundle_at(&data(1, 100, 60), at(110)));
    assert!(st.save_bundle_at(&data(2, 100, 60), at(110)));
    assert!(!st.save_bundle_at(&data(3, 100, 60), at(110)));
    assert_eq!(ids(&st.get_all_bundles()), vec![1, 2]);
}

#[test]
fn save_drops_expired_first() {
    let mut st = StorageLayer::new("d".to_string(), 2, String::new());
    assert!(st.save_bundle_at(&data(1, 100, 5), at(101)));
    assert!(st.save_bundle_at(&data(2, 100, 60), at(101)));
    // At 110 bundle 1 (ttl 5) has expired, which frees a place.
    assert!(st.save_bundle_at(&data(3, 100, 60), at(110)));
    assert_eq!(ids(&st.get_all_bundles()), vec![2, 3]);
}

#[test]
fn acknowledged_data_is_not_saved_again() {
    let mut st = StorageLayer::new("d".to_string(), 10, String::new());
    assert!(st.save_bundle_at(&ack(50, 7, 100), at(100)));
    assert!(!st.save_bundle_at(&data(7, 100, 60), at(100)));
    assert!(!st.update_bundle(&data(7, 100, 60)));
}

#[test]
fn cleanup_counts_removed() {
    let mut st = StorageLayer::new("d".to_string(), 10, String::new());
    st.refresh(vec![data(1, 100, 5), data(2, 100, 50), data(3, 100, 5)]);
    assert_eq!(st.cleanup_expired_bundles_at(at(106)), 2);
    assert_eq!(ids(&st.get_all_bundles()), vec![2]);
    // Exactly at its time to live a bundle has not expired.
    assert_eq!(st.cleanup_expired_bundles_at(at(150)), 0);
    assert_eq!(st.cleanup_expired_bundles_at(at(151)), 1);
}

#[test]
fn delete_reports_presence() {
    let mut st = StorageLayer::new("d".to_string(), 10, String::new());
    st.refresh(vec![data(1, 100, 5), data(2, 100, 50)]);
    assert!(st.delete_bundle(1));
    assert!(!st.delete_bundle(1));
    assert_eq!(ids(&st.get_all_bundles()), vec![2]);
}

#[test]
fn update_replaces_first_with_id() {
    let mut st = StorageLayer::new("d".to_string(), 10, String::new());
    st.refresh(vec![data(1, 100, 5), data(2, 100, 50)]);
    let mut b = data(2, 100, 50);
    b.shipment_status = MsgStatus::InTransit;
    assert!(st.update_bundle(&b));
    assert_eq!(st.get_bundle(2).unwrap().shipment_status, MsgStatus::InTransit);
    assert!(!st.update_bundle(&data(9, 100, 50)));
}

#[test]
fn bundles_by_source_node() {
    let mut st = StorageLayer::new("d".to_string(), 10, String::new());
    let mut other = data(3, 100, 50);
    other.source = node(5, "carol");
    st.refresh(vec![data(1, 100, 5), other, data(2, 100, 50)]);
    assert_eq!(st.get_bundles_by_node(1), vec![1, 2]);
    assert_eq!(st.get_bundles_by_node(5), vec![3]);
    assert!(st.get_bundles_by_node(9).is_empty());
}

#[test]
fn ack_saved_once_per_data_bundle() {
    let mut st = StorageLayer::new("d".to_string(), 10, String::new());
    assert!(st.save_ack_if_new_for_data(&ack(50, 7, 100)));
    assert!(!st.save_ack_if_new_for_data(&ack(51, 7, 100)));
    assert!(!st.save_ack_if_new_for_data(&data(8, 100, 5)));
    assert!(st.save_ack_if_new_for_data(&ack(52, 8, 100)));
    assert_eq!(ids(&st.get_all_bundles()), vec![50, 52]);
}

#[test]
fn error_messages() {
    assert_eq!(StorageError::NotFound("x".to_string()).message(), "Bundle with id x not found");
    assert_eq!(StorageError::AlreadyExists("x".to_string()).message(), "Bundle with id x already exists");
    assert_eq!(StorageError::StorageFull("x".to_string()).message(), "Storage full for bundle with id x");
    assert_eq!(
        StorageError::SerializationError("x".to_string()).message(),
        "Serialization error for bundle with id x (error in serialization or deserialization)"
    );
}

#[test]
fn ack_save_does_not_check_ids() {
    // Only acknowledgements of the same data bundle are compared: an
    // acknowledgement whose own id is already stored is kept beside it.
    let mut st = StorageLayer::new("d".to_string(), 10, String::new());
    assert!(st.save_bundle_at(&data(7, 100, 60), at(100)));
    assert!(st.save_ack_if_new_for_data(&ack(7, 9, 100)));
    assert_eq!(ids(&st.get_all_bundles()), vec![7, 7]);
    assert_eq!(st.get_bundle(7).unwrap().kind.is_data(), true);
}

#[test]
fn store_directory_is_resolved() {
    assert_eq!(StorageLayer::new("b".to_string(), 1, "/base".to_string()).storage_dir, "/base/b");
    assert_eq!(StorageLayer::new("/abs/b".to_string(), 1, "/base".to_string()).storage_dir, "/abs/b");
    assert_eq!(resolve_dir("", "rel"), "rel");
    assert_eq!(resolve_dir("/base/", "rel"), "/base/rel");
    assert_eq!(resolve_dir("/base", ""), "/base/");
}

#[test]
fn second_save_keeps_one_copy() {
    let mut st = StorageLayer::new("d".to_string(), 10, String::new());
    assert!(st.save_bundle_at(&data(7, 100, 60), at(110)));
    assert!(!st.save_bundle_at(&data(7, 100, 60), at(120)));
    assert_eq!(ids(&st.get_all_bundles()).iter().filter(|i| **i == 7).count(), 1);
}
