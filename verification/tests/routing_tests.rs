use whatspace::engine::{sync_node_engine_peers, RoutePurpose, RoutingEngine};
use whatspace::forward::{ForwardAction, ForwardEvent, Forwarder};
use whatspace::model::{Bundle, BundleKind, MsgStatus, Node};

/// The id the acknowledgement of data bundle `data_id` gets: the version-5
/// UUID of "ack" in the namespace of the data bundle's id.
fn ack_id(data_id: u128) -> u128 {
    uuid::Uuid::new_v5(&uuid::Uuid::from_u128(data_id), b"ack").as_u128()
}

/// The instant `secs` seconds after the Unix epoch, in nanoseconds.
fn at(secs: i64) -> i128 {
    secs as i128 * 1_000_000_000
}

fn node(id: u128) -> Node {
    Node { id, name: format!("n{}", id), address: "127.0.0.1".to_string(), port: 9000 + id as u16, peers: vec![] }
}

fn data(id: u128, from: u128, to: u128, timestamp: i64) -> Bundle {
    Bundle {
        id,
        source: node(from),
        destination: node(to),
        timestamp,
        timestamp_nanos: 0,
        ttl: 60,
        kind: BundleKind::Data { msg: "m".to_string() },
        shipment_status: MsgStatus::Pending,
    }
}

fn ack(id: u128, data_id: u128, from: u128, to: u128) -> Bundle {
    Bundle {
        id,
        source: node(from),
        destination: node(to),
        timestamp: 1_000,
        timestamp_nanos: 0,
        ttl: 60,
        kind: BundleKind::Ack { ack_bundle_id: data_id },
        shipment_status: MsgStatus::Pending,
    }
}

/// Runs a forwarder against a fixed world: the registry reports `connected`,
/// each peer holds what `held` says, sends to `failing` fail. Returns the
/// (bundle id, peer id) pairs sent.
fn drive(f: &mut Forwarder, connected: Vec<Node>, held: &dyn Fn(u128) -> Vec<u128>, failing: u128) -> Vec<(u128, u128)> {
    let mut sent = vec![];
    let mut action = f.begin();
    loop {
        let event = match action {
            ForwardAction::QueryRegistry { .. } => ForwardEvent::Connected { peers: connected.clone() },
            ForwardAction::AskSummary { peer } => ForwardEvent::Summary { ids: held(peer.id) },
            ForwardAction::Send { bundle, peer } => {
                sent.push((bundle.id, peer.id));
                ForwardEvent::SendResult { delivered: peer.id != failing }
            }
            ForwardAction::Finished => break,
        };
        action = f.step(event);
    }
    assert!(f.is_finished());
    sent
}

#[test]
fn anti_entropy_keeps_what_peer_lacks() {
    let e = RoutingEngine::new(1, vec![], "a".to_string(), String::new());
    let local = vec![data(10, 1, 2, 1_000), data(11, 1, 2, 1_000), data(12, 1, 2, 1_000)];
    let missing = e.anti_entropy(&local, &[11]);
    assert_eq!(missing.iter().map(|b| b.id).collect::<Vec<_>>(), vec![10, 12]);
    assert!(e.anti_entropy(&local, &[10, 11, 12]).is_empty());
}

#[test]
fn forwarder_skips_self_and_held_bundles() {
    let cands = vec![data(10, 1, 9, 1_000), data(11, 1, 9, 1_000)];
    let mut f = Forwarder::new(1, vec![2, 3], cands);
    let held = |peer: u128| if peer == 2 { vec![10] } else { vec![] };
    let sent = drive(&mut f, vec![node(1), node(2), node(3)], &held, 3);
    assert_eq!(sent, vec![(11, 2), (10, 3), (11, 3)]);
    assert_eq!(f.sent_ids(), vec![11]);
    assert!(f.attempted());
}

#[test]
fn forwarder_with_no_connected_peer_sends_nothing() {
    let mut f = Forwarder::new(1, vec![2], vec![data(10, 1, 9, 1_000)]);
    let sent = drive(&mut f, vec![node(1)], &|_| vec![], 0);
    assert!(sent.is_empty());
    assert!(!f.attempted());
    assert!(f.sent_ids().is_empty());
}

#[test]
fn forwarder_ends_on_unexpected_event() {
    let mut f = Forwarder::new(1, vec![2], vec![]);
    assert!(matches!(f.step(ForwardEvent::SendResult { delivered: true }), ForwardAction::Finished));
    assert!(f.is_finished());
    assert!(matches!(f.begin(), ForwardAction::Finished));
}

#[test]
fn relay_saves_and_offers_pending_bundles() {
    let mut e = RoutingEngine::new(1, vec![2], "a".to_string(), String::new());
    let mut b = data(10, 5, 9, 1_000);
    let job = e.route_bundle_at(&mut b, at(1_010), 5, 0).expect("forwarding");
    assert!(matches!(job.purpose, RoutePurpose::RelayData));
    assert!(e.bundle_manager.has_bundle(10));
    let mut job = job;
    let sent = drive(&mut job.forwarder, vec![node(2), node(5)], &|_| vec![], 0);
    assert_eq!(sent, vec![(10, 2), (10, 5)]);
    e.finish_route_at(&mut b, &job, at(1_010));
    assert_eq!(b.shipment_status, MsgStatus::InTransit);
    assert_eq!(e.bundle_manager.get(10).unwrap().shipment_status, MsgStatus::InTransit);
}

#[test]
fn expired_bundle_is_dropped() {
    let mut e = RoutingEngine::new(1, vec![2], "a".to_string(), String::new());
    assert!(e.bundle_manager.save_bundle_at(&data(10, 5, 9, 1_000), at(1_000)));
    let mut b = data(10, 5, 9, 1_000);
    assert!(e.route_bundle_at(&mut b, at(1_061), 5, 0).is_none());
    assert_eq!(b.shipment_status, MsgStatus::Expired);
    assert!(!e.bundle_manager.has_bundle(10));
}

#[test]
fn destination_delivers_and_announces_ack() {
    let mut e = RoutingEngine::new(9, vec![], "dest".to_string(), String::new());
    let mut b = data(10, 5, 9, 1_000);
    let job = e.route_bundle_at(&mut b, at(1_010), 5, 0).expect("an acknowledgement to announce");
    assert_eq!(b.shipment_status, MsgStatus::Delivered);
    assert_eq!(e.bundle_manager.get(10).unwrap().shipment_status, MsgStatus::Delivered);
    let ack_id = match &job.purpose {
        RoutePurpose::AnnounceAck { ack } => {
            assert_eq!(ack.source.id, 9);
            assert_eq!(ack.destination.id, 5);
            ack.id
        }
        _ => panic!("expected an acknowledgement"),
    };
    assert!(e.bundle_manager.has_bundle(ack_id));
    let mut job = job;
    let sent = drive(&mut job.forwarder, vec![node(5)], &|_| vec![], 0);
    assert_eq!(sent, vec![(ack_id, 5)]);
    e.finish_route_at(&mut b, &job, at(1_010));
    assert_eq!(e.bundle_manager.get(ack_id).unwrap().shipment_status, MsgStatus::InTransit);
    assert_eq!(b.shipment_status, MsgStatus::Delivered);
}

#[test]
fn ack_is_relayed_once_and_cleans_data() {
    let mut e = RoutingEngine::new(3, vec![4], "relay".to_string(), String::new());
    assert!(e.bundle_manager.save_bundle_at(&data(10, 5, 9, 1_000), at(1_000)));
    let mut a = ack(50, 10, 9, 5);
    let job = e.route_bundle_at(&mut a, at(1_010), 5, 0).expect("new acknowledgement");
    assert!(matches!(job.purpose, RoutePurpose::RelayAck));
    assert!(!e.bundle_manager.has_bundle(10));
    assert!(e.bundle_manager.has_bundle(50));
    let mut again = ack(51, 10, 9, 5);
    assert!(e.route_bundle_at(&mut again, at(1_010), 5, 0).is_none());
}

#[test]
fn ack_reaching_origin_is_delivered() {
    let mut e = RoutingEngine::new(5, vec![], "origin".to_string(), String::new());
    assert!(e.bundle_manager.save_bundle_at(&data(10, 5, 9, 1_000), at(1_000)));
    let mut a = ack(50, 10, 9, 5);
    assert!(e.route_bundle_at(&mut a, at(1_010), 5, 0).is_none());
    assert_eq!(a.shipment_status, MsgStatus::Delivered);
    assert!(!e.bundle_manager.has_bundle(10));
    assert_eq!(e.bundle_manager.get(50).unwrap().shipment_status, MsgStatus::Delivered);
}

#[test]
fn retry_offers_pending_and_in_transit() {
    let mut e = RoutingEngine::new(1, vec![2], "a".to_string(), String::new());
    let mut t = data(11, 1, 9, 1_000);
    t.shipment_status = MsgStatus::InTransit;
    let mut d = data(12, 1, 9, 1_000);
    d.shipment_status = MsgStatus::Delivered;
    e.bundle_manager.storage.refresh(vec![data(10, 1, 9, 1_000), t, d]);
    let mut f = e.retry_unsynced_bundles().expect("retryable bundles");
    let sent = drive(&mut f, vec![node(2)], &|_| vec![11], 0);
    assert_eq!(sent, vec![(10, 2)]);
    e.finish_retry_at(&f, at(1_010));
    assert_eq!(e.bundle_manager.get(10).unwrap().shipment_status, MsgStatus::InTransit);
    assert_eq!(e.bundle_manager.get(12).unwrap().shipment_status, MsgStatus::Delivered);
}

#[test]
fn retry_without_candidates_is_none() {
    let e = RoutingEngine::new(1, vec![2], "a".to_string(), String::new());
    assert!(e.retry_unsynced_bundles().is_none());
}

#[test]
fn drop_expired_removes_only_expired() {
    let mut e = RoutingEngine::new(1, vec![], "a".to_string(), String::new());
    let mut old_one = data(10, 1, 9, 900);
    old_one.ttl = 10;
    e.bundle_manager.storage.refresh(vec![old_one, data(11, 1, 9, 1_000)]);
    let mut bm = e.bundle_manager.clone();
    e.drop_expired_bundles_at(&mut bm, at(1_000));
    assert_eq!(bm.summary_ids(), vec![11]);
}

#[test]
fn engine_defaults_and_peer_sync() {
    let mut e = RoutingEngine::new(1, vec![2], "alice".to_string(), "/srv/node".to_string());
    assert_eq!(e.registry_address, "127.0.0.1:8080");
    assert_eq!(e.bundle_manager.storage.storage_dir, "/srv/node/./bundles/alice");
    let mut n = node(1);
    n.peers = vec![3, 4];
    sync_node_engine_peers(&n, &mut e);
    assert_eq!(e.peers, vec![3, 4]);
}

#[test]
fn known_incoming_bundle_is_ignored() {
    let mut e = RoutingEngine::new(1, vec![2], "a".to_string(), String::new());
    let mut b = data(10, 5, 9, 1_000);
    assert!(e.route_incoming_bundle_at(&mut b, at(1_010), 5, 0).is_some());
    let mut again = data(10, 5, 9, 1_000);
    assert!(e.route_incoming_bundle_at(&mut again, at(1_010), 5, 0).is_none());
    assert_eq!(e.bundle_manager.summary_ids(), vec![10]);
}

#[test]
fn second_ack_is_not_relayed() {
    let mut e = RoutingEngine::new(3, vec![4], "relay".to_string(), String::new());
    let mut first = ack(50, 10, 9, 5);
    assert!(e.route_bundle_at(&mut first, at(1_010), 5, 0).is_some());
    let mut second = ack(60, 10, 9, 5);
    assert!(e.route_bundle_at(&mut second, at(1_020), 5, 0).is_none());
    assert!(!e.bundle_manager.has_bundle(60));
}

#[test]
fn destination_with_taken_ack_id_announces_nothing() {
    let mut e = RoutingEngine::new(9, vec![], "dest".to_string(), String::new());
    let taken = ack_id(10);
    assert!(e.bundle_manager.save_bundle_at(&data(taken, 4, 9, 1_000), at(1_000)));
    let mut b = data(10, 5, 9, 1_000);
    assert!(e.route_bundle_at(&mut b, at(1_010), 1_010, 0).is_none());
    assert_eq!(b.shipment_status, MsgStatus::Delivered);
    assert_eq!(e.bundle_manager.summary_ids(), vec![taken, 10]);
}

#[test]
fn destination_stores_the_given_ack() {
    let mut e = RoutingEngine::new(9, vec![], "dest".to_string(), String::new());
    let mut b = data(10, 5, 9, 1_000);
    let job = e.route_bundle_at(&mut b, at(1_010), 1_010, 42).expect("announce");
    match &job.purpose {
        RoutePurpose::AnnounceAck { ack } => {
            assert_eq!(ack.id, ack_id(10));
            assert_eq!(ack.timestamp, 1_010);
            assert_eq!(ack.timestamp_nanos, 42);
        }
        _ => panic!("expected an acknowledgement"),
    }
    assert_eq!(e.bundle_manager.summary_ids(), vec![10, ack_id(10)]);
}

#[test]
fn delivered_bundle_is_acknowledged_once() {
    let mut e = RoutingEngine::new(9, vec![], "dest".to_string(), String::new());
    let mut b = data(10, 5, 9, 1_000);
    assert!(e.route_bundle_at(&mut b, at(1_010), 1_010, 0).is_some());
    let mut again = data(10, 5, 9, 1_000);
    assert!(e.route_bundle_at(&mut again, at(1_020), 1_020, 0).is_none());
    assert_eq!(e.bundle_manager.summary_ids(), vec![10, ack_id(10)]);
}
