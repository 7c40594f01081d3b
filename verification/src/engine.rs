//! Store-carry-forward routing: what a node does with a bundle it receives or
//! creates, and the periodic retry of what its peers still lack.
//!
//! Asking the registry and the peers, and sending, is outside work done by
//! the caller through a `Forwarder`; everything the node decides is here.
use vstd::prelude::*;
use vstd::string::*;

use crate::bundle_manager::{after_incoming_ack, after_upsert, BundleManager, STORE_CAPACITY};
use crate::clock::{clock_reading, instant, instant_of, unix_now};
use crate::ids::{ack_id_for, ack_id_of};
use crate::forward::{contains_u128, missing_bundles, missing_on_peer, Forwarder, ForwarderView};
use crate::model::{ack_view, expired_at, Bundle, BundleKind, BundleView, KindView, MsgStatus, Node};
use crate::storage::{
    after_save, contains_id, id_of, lemma_views_push, lookup, other_than, path_join, views, without_id,
};

verus! {

/// `ids` with `x` appended unless it is there already.
pub open spec fn with_node(ids: Seq<u128>, x: u128) -> Seq<u128> {
    if ids.contains(x) {
        ids
    } else {
        ids.push(x)
    }
}

/// A bundle still to be forwarded: pending, or, when `in_transit_too`, also
/// in transit.
pub open spec fn awaiting(in_transit_too: bool) -> spec_fn(BundleView) -> bool {
    |b: BundleView|
        b.shipment_status == MsgStatus::Pending || (in_transit_too && b.shipment_status
            == MsgStatus::InTransit)
}

/// `b` with status `st`.
pub open spec fn with_status(b: BundleView, st: MsgStatus) -> BundleView {
    BundleView { shipment_status: st, ..b }
}

/// Why bundles are being forwarded after `route_bundle`.
pub enum RoutePurpose {
    /// Relaying an acknowledgement seen here for the first time.
    RelayAck,
    /// Announcing the acknowledgement this node, the destination, created.
    AnnounceAck { ack: Bundle },
    /// Relaying the pending bundles of the store.
    RelayData,
}

/// Model of a `RoutePurpose`.
pub enum PurposeView {
    RelayAck,
    AnnounceAck { ack: BundleView },
    RelayData,
}

impl View for RoutePurpose {
    type V = PurposeView;

    open spec fn view(&self) -> PurposeView {
        match self {
            RoutePurpose::RelayAck => PurposeView::RelayAck,
            RoutePurpose::AnnounceAck { ack } => PurposeView::AnnounceAck { ack: ack@ },
            RoutePurpose::RelayData => PurposeView::RelayData,
        }
    }
}

/// The forwarding that routing a bundle calls for, and why.
pub struct RouteJob {
    pub purpose: RoutePurpose,
    pub forwarder: Forwarder,
}

/// Model of a `RouteJob`.
pub struct RouteJobView {
    pub purpose: PurposeView,
    pub forwarder: ForwarderView,
}

impl View for RouteJob {
    type V = RouteJobView;

    open spec fn view(&self) -> RouteJobView {
        RouteJobView { purpose: self.purpose@, forwarder: self.forwarder@ }
    }
}

/// Model of an optional job.
pub open spec fn job_view(job: Option<RouteJob>) -> Option<RouteJobView> {
    match job {
        Some(j) => Some(j@),
        None => None,
    }
}

/// What routing bundle `b` at time `now` does, for node `me` with peers
/// `peers` and store `s` of capacity `cap`: the store becomes `s2`, the
/// bundle `b2`, and `job` is the forwarding it calls for.
///
/// - An acknowledgement reaching its destination is handled (the data bundle
///   it names leaves the store), then kept as delivered; nothing is forwarded.
/// - An acknowledgement elsewhere is handled; when it was new here it is
///   relayed to the connected peers lacking it (the registry is asked about
///   the peers and the acknowledgement's destination).
/// - Any other bundle that has expired is marked expired and deleted.
/// - One that reached its destination is kept as delivered, and its
///   acknowledgement, whose id `ack_id_of` derives from the bundle's id and
///   whose creation time is `ack_secs` seconds and `ack_nanos` nanoseconds,
///   is stored unless that id is taken or the store refuses it; a stored one
///   is announced to the connected peers lacking it.
/// - Otherwise the bundle is saved and every pending bundle of the store is
///   offered to the connected peers lacking it (the registry is asked about
///   the peers and the bundle's source).
pub open spec fn routed(
    me: u128,
    peers: Seq<u128>,
    s: Seq<BundleView>,
    cap: nat,
    b: BundleView,
    now: int,
    ack_secs: i64,
    ack_nanos: u32,
    s2: Seq<BundleView>,
    b2: BundleView,
    job: Option<RouteJobView>,
) -> bool {
    match b.kind {
        KindView::Ack { .. } => if me == b.destination.id {
            let d = with_status(b, MsgStatus::Delivered);
            &&& b2 == d
            &&& job is None
            &&& s2 == after_upsert(after_incoming_ack(s, cap, b, now).0, cap, d, now).0
        } else {
            let (s1, fresh) = after_incoming_ack(s, cap, b, now);
            &&& b2 == b
            &&& s2 == s1
            &&& match job {
                Some(j) => {
                    &&& fresh
                    &&& j.purpose == PurposeView::RelayAck
                    &&& j.forwarder == ForwarderView::initial(me, with_node(peers, b.destination.id), seq![b])
                },
                None => !fresh,
            }
        },
        _ => if expired_at(b, now) {
            &&& job is None
            &&& b2 == with_status(b, MsgStatus::Expired)
            &&& s2 == without_id(s, b.id)
        } else if me == b.destination.id {
            let d = with_status(b, MsgStatus::Delivered);
            let s1 = after_upsert(s, cap, d, now).0;
            let ack_id = ack_id_of(b.id);
            let ack = ack_view(d, ack_id, ack_secs, ack_nanos);
            &&& b2 == d
            &&& if contains_id(s1, ack_id) {
                s2 == s1 && job is None
            } else {
                let (s3, saved) = after_save(s1, cap, ack, now);
                &&& s2 == s3
                &&& match job {
                    Some(j) => {
                        &&& saved
                        &&& j.purpose == (PurposeView::AnnounceAck { ack })
                        &&& j.forwarder == ForwarderView::initial(me, with_node(peers, b.source.id), seq![ack])
                    },
                    None => !saved,
                }
            }
        } else {
            let s1 = after_save(s, cap, b, now).0;
            &&& b2 == b
            &&& s2 == s1
            &&& job matches Some(j) && {
                &&& j.purpose == PurposeView::RelayData
                &&& j.forwarder == ForwarderView::initial(me, with_node(peers, b.source.id), s1.filter(awaiting(false)))
            }
        },
    }
}

/// What finishing a routing job does once its forwarder is done: a relayed
/// acknowledgement some peer took, or a relayed bundle of which some send
/// was attempted, is kept as in transit; an announced acknowledgement some
/// peer took is kept as in transit. Otherwise nothing changes.
pub open spec fn route_finished(
    s: Seq<BundleView>,
    cap: nat,
    b: BundleView,
    job: RouteJobView,
    now: int,
    s2: Seq<BundleView>,
    b2: BundleView,
) -> bool {
    match job.purpose {
        PurposeView::RelayAck => if job.forwarder.sent_ids.len() > 0 {
            &&& b2 == with_status(b, MsgStatus::InTransit)
            &&& s2 == after_upsert(s, cap, b2, now).0
        } else {
            b2 == b && s2 == s
        },
        PurposeView::AnnounceAck { ack } => {
            &&& b2 == b
            &&& s2 == if job.forwarder.sent_ids.len() > 0 {
                after_upsert(s, cap, with_status(ack, MsgStatus::InTransit), now).0
            } else {
                s
            }
        },
        PurposeView::RelayData => if job.forwarder.attempted {
            &&& b2 == with_status(b, MsgStatus::InTransit)
            &&& s2 == after_upsert(s, cap, b2, now).0
        } else {
            b2 == b && s2 == s
        },
    }
}

/// Marking the stored bundle `id` in transit, if there is one.
pub open spec fn mark_in_transit(s: Seq<BundleView>, cap: nat, id: u128, now: int) -> Seq<BundleView> {
    match lookup(s, id) {
        Some(b) => after_upsert(s, cap, with_status(b, MsgStatus::InTransit), now).0,
        None => s,
    }
}

/// Marking each of `ids` in transit, in order.
pub open spec fn mark_all_in_transit(s: Seq<BundleView>, cap: nat, ids: Seq<u128>, now: int) -> Seq<
    BundleView,
>
    decreases ids.len(),
{
    if ids.len() == 0 {
        s
    } else {
        mark_in_transit(mark_all_in_transit(s, cap, ids.drop_last(), now), cap, ids.last(), now)
    }
}

/// Expired at time `now`.
pub open spec fn expired_now(now: int) -> spec_fn(BundleView) -> bool {
    |b: BundleView| expired_at(b, now)
}

/// The ids of the bundles of `s` that have expired at time `now`, in order.
pub open spec fn expired_ids(s: Seq<BundleView>, now: int) -> Seq<u128> {
    s.filter(expired_now(now)).map_values(id_of())
}

/// A bundle whose id is not listed in `ids`.
pub open spec fn not_listed(ids: Seq<u128>) -> spec_fn(BundleView) -> bool {
    |b: BundleView| !ids.contains(b.id)
}

/// The routing state of a node.
pub struct RoutingEngine {
    pub node_id: u128,
    pub peers: Vec<u128>,
    pub registry_address: String,
    pub bundle_manager: BundleManager,
}

impl Clone for RoutingEngine {
    fn clone(&self) -> (res: Self)
        ensures
            res.node_id == self.node_id,
            res.peers@ == self.peers@,
            res.registry_address@ == self.registry_address@,
            res.bundle_manager.node_id == self.bundle_manager.node_id,
            res.bundle_manager.storage@ == self.bundle_manager.storage@,
            res.bundle_manager.storage.capacity == self.bundle_manager.storage.capacity,
    {
        let peers = self.peers.clone();
        assert(peers@ =~= self.peers@);
        RoutingEngine {
            node_id: self.node_id,
            peers,
            registry_address: self.registry_address.clone(),
            bundle_manager: self.bundle_manager.clone(),
        }
    }
}

/// `ids` with `x` appended unless it is there already.
fn with_node_vec(ids: &Vec<u128>, x: u128) -> (r: Vec<u128>)
    ensures
        r@ == with_node(ids@, x),
{
    let mut r = ids.clone();
    assert(r@ =~= ids@);
    if !contains_u128(r.as_slice(), x) {
        r.push(x);
    }
    r
}

/// The bundles of `v` still to be forwarded, in order.
fn select_awaiting(v: &Vec<Bundle>, in_transit_too: bool) -> (r: Vec<Bundle>)
    ensures
        views(r@) == views(v@).filter(awaiting(in_transit_too)),
{
    let ghost s = views(v@);
    let mut out: Vec<Bundle> = Vec::new();
    let mut i: usize = 0;
    while i < v.len()
        invariant
            i <= v.len(),
            s == views(v@),
            views(out@) == s.take(i as int).filter(awaiting(in_transit_too)),
        decreases v.len() - i,
    {
        proof {
            crate::seqs::lemma_filter_take_step(s, awaiting(in_transit_too), i as int);
        }
        let st = v[i].shipment_status;
        if st == MsgStatus::Pending || (in_transit_too && st == MsgStatus::InTransit) {
            let c = v[i].clone();
            proof {
                lemma_views_push(out@, c);
            }
            out.push(c);
        }
        i = i + 1;
    }
    assert(s.take(s.len() as int) =~= s);
    out
}

/// Makes the routing engine's peers those of `node`.
pub fn sync_node_engine_peers(node: &Node, engine: &mut RoutingEngine)
    ensures
        final(engine).peers@ == node.peers@,
        final(engine).node_id == old(engine).node_id,
        final(engine).registry_address@ == old(engine).registry_address@,
        final(engine).bundle_manager.node_id == old(engine).bundle_manager.node_id,
        final(engine).bundle_manager.storage@ == old(engine).bundle_manager.storage@,
        final(engine).bundle_manager.storage.capacity == old(engine).bundle_manager.storage.capacity,
{
    let peers = node.peers.clone();
    assert(peers@ =~= node.peers@);
    engine.peers = peers;
}

impl RoutingEngine {
    /// The engine of node `node_id`, named `name`, knowing `peers`, with an
    /// empty store in `./bundles/<name>` taken from `base_dir`; it asks the
    /// registry at 127.0.0.1:8080.
    pub fn new(node_id: u128, peers: Vec<u128>, name: String, base_dir: String) -> (e: Self)
        ensures
            e.node_id == node_id,
            e.peers@ == peers@,
            e.registry_address@ == "127.0.0.1:8080"@,
            e.bundle_manager.node_id == node_id,
            e.bundle_manager.storage@ == Seq::<BundleView>::empty(),
            e.bundle_manager.storage.capacity == STORE_CAPACITY,
            e.bundle_manager.storage.storage_dir@ == path_join(base_dir@, "./bundles/"@ + name@),
    {
        RoutingEngine {
            node_id,
            peers,
            registry_address: String::from_str("127.0.0.1:8080"),
            bundle_manager: BundleManager::new(node_id, name, base_dir),
        }
    }

    /// The node's summary vector: every bundle it holds.
    pub fn get_summary_vector(bundle_manager: &BundleManager) -> (r: Vec<Bundle>)
        ensures
            views(r@) == bundle_manager.storage@,
    {
        bundle_manager.get_bundles_from_node()
    }

    /// The bundles of `local_sv` that a peer holding `peer_sv` lacks, in order.
    pub fn anti_entropy(&self, local_sv: &[Bundle], peer_sv: &[u128]) -> (r: Vec<Bundle>)
        ensures
            views(r@) == missing_on_peer(views(local_sv@), peer_sv@),
    {
        missing_bundles(local_sv, peer_sv)
    }

    /// Routes `bundle` at time `now`: the store's part of routing, as
    /// `routed` states; an acknowledgement it creates gets the time
    /// `ack_secs`, `ack_nanos`. Returns the forwarding it calls for, if any; after
    /// the caller has run its forwarder, `finish_route_at` completes it.
    pub fn route_bundle_at(
        &mut self,
        bundle: &mut Bundle,
        now: i128,
        ack_secs: i64,
        ack_nanos: u32,
    ) -> (job: Option<RouteJob>)
        ensures
            routed(
                old(self).node_id,
                old(self).peers@,
                old(self).bundle_manager.storage@,
                old(self).bundle_manager.storage.capacity as nat,
                old(bundle)@,
                now as int,
                ack_secs,
                ack_nanos,
                final(self).bundle_manager.storage@,
                final(bundle)@,
                job_view(job),
            ),
            final(self).node_id == old(self).node_id,
            final(self).peers@ == old(self).peers@,
            final(self).bundle_manager.node_id == old(self).bundle_manager.node_id,
            final(self).bundle_manager.storage.capacity == old(self).bundle_manager.storage.capacity,
    {
        let is_ack = match &bundle.kind {
            BundleKind::Ack { .. } => true,
            _ => false,
        };
        if is_ack {
            if self.node_id == bundle.destination.id {
                let _ = self.bundle_manager.handle_incoming_ack_at(bundle, now);
                bundle.shipment_status = MsgStatus::Delivered;
                let _ = self.bundle_manager.upsert_bundle_at(bundle, now);
                return None;
            }
            if !self.bundle_manager.handle_incoming_ack_at(bundle, now) {
                return None;
            }
            let requested = with_node_vec(&self.peers, bundle.destination.id);
            let mut candidates: Vec<Bundle> = Vec::new();
            candidates.push(bundle.clone());
            assert(views(candidates@) =~= seq![bundle@]);
            let forwarder = Forwarder::new(self.node_id, requested, candidates);
            return Some(RouteJob { purpose: RoutePurpose::RelayAck, forwarder });
        }
        if bundle.is_expired_at(now) {
            bundle.shipment_status = MsgStatus::Expired;
            let _ = self.bundle_manager.delete_bundle(bundle.id);
            return None;
        }
        if self.node_id == bundle.destination.id {
            bundle.shipment_status = MsgStatus::Delivered;
            let _ = self.bundle_manager.upsert_bundle_at(bundle, now);
            let ack_id = ack_id_for(bundle.id);
            let ack = Bundle::ack_with(bundle, ack_id, ack_secs, ack_nanos);
            let created = if self.bundle_manager.has_bundle(ack.id) {
                false
            } else {
                self.bundle_manager.save_bundle_at(&ack, now)
            };
            if !created {
                return None;
            }
            let requested = with_node_vec(&self.peers, bundle.source.id);
            let mut candidates: Vec<Bundle> = Vec::new();
            candidates.push(ack.clone());
            assert(views(candidates@) =~= seq![ack@]);
            let forwarder = Forwarder::new(self.node_id, requested, candidates);
            return Some(RouteJob { purpose: RoutePurpose::AnnounceAck { ack }, forwarder });
        }
        let _ = self.bundle_manager.save_bundle_at(bundle, now);
        let local = RoutingEngine::get_summary_vector(&self.bundle_manager);
        let pending = select_awaiting(&local, false);
        let requested = with_node_vec(&self.peers, bundle.source.id);
        let forwarder = Forwarder::new(self.node_id, requested, pending);
        Some(RouteJob { purpose: RoutePurpose::RelayData, forwarder })
    }

    /// Routes `bundle` at the time the clock reads; an acknowledgement it
    /// creates gets that time.
    pub fn route_bundle(&mut self, bundle: &mut Bundle) -> (job: Option<RouteJob>)
        ensures
            exists|secs: i64, nanos: u32|
                clock_reading(secs, nanos) && #[trigger] routed(
                    old(self).node_id,
                    old(self).peers@,
                    old(self).bundle_manager.storage@,
                    old(self).bundle_manager.storage.capacity as nat,
                    old(bundle)@,
                    instant(secs, nanos),
                    secs,
                    nanos,
                    final(self).bundle_manager.storage@,
                    final(bundle)@,
                    job_view(job),
                ),
            final(self).node_id == old(self).node_id,
            final(self).peers@ == old(self).peers@,
            final(self).bundle_manager.node_id == old(self).bundle_manager.node_id,
            final(self).bundle_manager.storage.capacity == old(self).bundle_manager.storage.capacity,
    {
        let (secs, nanos) = unix_now();
        let now = instant_of(secs, nanos);
        self.route_bundle_at(bundle, now, secs, nanos)
    }

    /// Routes a bundle received from a peer at time `now`, as
    /// `route_bundle_at` does, unless a bundle with its id is stored already,
    /// in which case nothing happens.
    pub fn route_incoming_bundle_at(
        &mut self,
        bundle: &mut Bundle,
        now: i128,
        ack_secs: i64,
        ack_nanos: u32,
    ) -> (job: Option<RouteJob>)
        ensures
            contains_id(old(self).bundle_manager.storage@, old(bundle)@.id) ==> {
                &&& job is None
                &&& final(bundle)@ == old(bundle)@
                &&& final(self).bundle_manager.storage@ == old(self).bundle_manager.storage@
            },
            !contains_id(old(self).bundle_manager.storage@, old(bundle)@.id) ==> routed(
                old(self).node_id,
                old(self).peers@,
                old(self).bundle_manager.storage@,
                old(self).bundle_manager.storage.capacity as nat,
                old(bundle)@,
                now as int,
                ack_secs,
                ack_nanos,
                final(self).bundle_manager.storage@,
                final(bundle)@,
                job_view(job),
            ),
            final(self).node_id == old(self).node_id,
            final(self).peers@ == old(self).peers@,
            final(self).bundle_manager.node_id == old(self).bundle_manager.node_id,
            final(self).bundle_manager.storage.capacity == old(self).bundle_manager.storage.capacity,
    {
        if self.bundle_manager.has_bundle(bundle.id) {
            return None;
        }
        self.route_bundle_at(bundle, now, ack_secs, ack_nanos)
    }

    /// Routes a bundle received from a peer at the time the clock reads.
    pub fn route_incoming_bundle(&mut self, bundle: &mut Bundle) -> (job: Option<RouteJob>)
        ensures
            contains_id(old(self).bundle_manager.storage@, old(bundle)@.id) ==> {
                &&& job is None
                &&& final(bundle)@ == old(bundle)@
                &&& final(self).bundle_manager.storage@ == old(self).bundle_manager.storage@
            },
            !contains_id(old(self).bundle_manager.storage@, old(bundle)@.id) ==> exists|
                secs: i64,
                nanos: u32,
            |
                clock_reading(secs, nanos) && #[trigger] routed(
                    old(self).node_id,
                    old(self).peers@,
                    old(self).bundle_manager.storage@,
                    old(self).bundle_manager.storage.capacity as nat,
                    old(bundle)@,
                    instant(secs, nanos),
                    secs,
                    nanos,
                    final(self).bundle_manager.storage@,
                    final(bundle)@,
                    job_view(job),
                ),
            final(self).node_id == old(self).node_id,
            final(self).peers@ == old(self).peers@,
            final(self).bundle_manager.node_id == old(self).bundle_manager.node_id,
            final(self).bundle_manager.storage.capacity == old(self).bundle_manager.storage.capacity,
    {
        let (secs, nanos) = unix_now();
        let now = instant_of(secs, nanos);
        self.route_incoming_bundle_at(bundle, now, secs, nanos)
    }

    /// Completes a routing job once its forwarder is done, at time `now`,
    /// as `route_finished` states.
    pub fn finish_route_at(&mut self, bundle: &mut Bundle, job: &RouteJob, now: i128)
        ensures
            route_finished(
                old(self).bundle_manager.storage@,
                old(self).bundle_manager.storage.capacity as nat,
                old(bundle)@,
                job@,
                now as int,
                final(self).bundle_manager.storage@,
                final(bundle)@,
            ),
            final(self).node_id == old(self).node_id,
            final(self).peers@ == old(self).peers@,
            final(self).bundle_manager.node_id == old(self).bundle_manager.node_id,
            final(self).bundle_manager.storage.capacity == old(self).bundle_manager.storage.capacity,
    {
        match &job.purpose {
            RoutePurpose::RelayAck => {
                if job.forwarder.sent_ids().len() > 0 {
                    bundle.shipment_status = MsgStatus::InTransit;
                    let _ = self.bundle_manager.upsert_bundle_at(bundle, now);
                }
            },
            RoutePurpose::AnnounceAck { ack } => {
                if job.forwarder.sent_ids().len() > 0 {
                    let mut in_transit = ack.clone();
                    in_transit.shipment_status = MsgStatus::InTransit;
                    let _ = self.bundle_manager.upsert_bundle_at(&in_transit, now);
                }
            },
            RoutePurpose::RelayData => {
                if job.forwarder.attempted() {
                    bundle.shipment_status = MsgStatus::InTransit;
                    let _ = self.bundle_manager.upsert_bundle_at(bundle, now);
                }
            },
        }
    }

    /// Completes a routing job at the time the clock reads.
    pub fn finish_route(&mut self, bundle: &mut Bundle, job: &RouteJob)
        ensures
            exists|secs: i64, nanos: u32|
                clock_reading(secs, nanos) && #[trigger] route_finished(
                    old(self).bundle_manager.storage@,
                    old(self).bundle_manager.storage.capacity as nat,
                    old(bundle)@,
                    job@,
                    instant(secs, nanos),
                    final(self).bundle_manager.storage@,
                    final(bundle)@,
                ),
            final(self).node_id == old(self).node_id,
            final(self).peers@ == old(self).peers@,
            final(self).bundle_manager.node_id == old(self).bundle_manager.node_id,
            final(self).bundle_manager.storage.capacity == old(self).bundle_manager.storage.capacity,
    {
        let (secs, nanos) = unix_now();
        let now = instant_of(secs, nanos);
        self.finish_route_at(bundle, job, now)
    }

    /// The forwarding of every pending or in-transit bundle of the store to
    /// the connected peers lacking it; `None` when there is none.
    pub fn retry_unsynced_bundles(&self) -> (f: Option<Forwarder>)
        ensures
            match f {
                Some(f) => {
                    let c = self.bundle_manager.storage@.filter(awaiting(true));
                    &&& c.len() > 0
                    &&& f@ == ForwarderView::initial(self.node_id, self.peers@, c)
                },
                None => self.bundle_manager.storage@.filter(awaiting(true)).len() == 0,
            },
    {
        let local = RoutingEngine::get_summary_vector(&self.bundle_manager);
        let retryable = select_awaiting(&local, true);
        if retryable.len() == 0 {
            return None;
        }
        let requested = self.peers.clone();
        assert(requested@ =~= self.peers@);
        Some(Forwarder::new(self.node_id, requested, retryable))
    }

    /// Completes a retry at time `now`: each bundle some peer took is kept
    /// as in transit.
    pub fn finish_retry_at(&mut self, forwarder: &Forwarder, now: i128)
        ensures
            final(self).bundle_manager.storage@ == mark_all_in_transit(
                old(self).bundle_manager.storage@,
                old(self).bundle_manager.storage.capacity as nat,
                forwarder@.sent_ids,
                now as int,
            ),
            final(self).node_id == old(self).node_id,
            final(self).peers@ == old(self).peers@,
            final(self).bundle_manager.node_id == old(self).bundle_manager.node_id,
            final(self).bundle_manager.storage.capacity == old(self).bundle_manager.storage.capacity,
    {
        let ids = forwarder.sent_ids();
        let ghost s = self.bundle_manager.storage@;
        let ghost cap = self.bundle_manager.storage.capacity as nat;
        let mut i: usize = 0;
        while i < ids.len()
            invariant
                i <= ids.len(),
                self.bundle_manager.storage@ == mark_all_in_transit(s, cap, ids@.take(i as int), now as int),
                self.bundle_manager.storage.capacity == cap,
                self.node_id == old(self).node_id,
                self.peers@ == old(self).peers@,
                self.bundle_manager.node_id == old(self).bundle_manager.node_id,
            decreases ids.len() - i,
        {
            proof {
                assert(ids@.take(i + 1).drop_last() =~= ids@.take(i as int));
            }
            match self.bundle_manager.get(ids[i]) {
                Some(mut b) => {
                    b.shipment_status = MsgStatus::InTransit;
                    let _ = self.bundle_manager.upsert_bundle_at(&b, now);
                },
                None => {},
            }
            i = i + 1;
        }
        assert(ids@.take(ids.len() as int) =~= ids@);
    }

    /// Completes a retry at the time the clock reads.
    pub fn finish_retry(&mut self, forwarder: &Forwarder)
        ensures
            exists|secs: i64, nanos: u32|
                clock_reading(secs, nanos) && final(self).bundle_manager.storage@
                    == #[trigger] mark_all_in_transit(
                    old(self).bundle_manager.storage@,
                    old(self).bundle_manager.storage.capacity as nat,
                    forwarder@.sent_ids,
                    instant(secs, nanos),
                ),
            final(self).node_id == old(self).node_id,
            final(self).peers@ == old(self).peers@,
            final(self).bundle_manager.node_id == old(self).bundle_manager.node_id,
            final(self).bundle_manager.storage.capacity == old(self).bundle_manager.storage.capacity,
    {
        let (secs, nanos) = unix_now();
        let now = instant_of(secs, nanos);
        self.finish_retry_at(forwarder, now)
    }

    /// Deletes, at time `now`, every bundle whose id is that of a bundle
    /// that has expired.
    pub fn drop_expired_bundles_at(&self, bundle_manager: &mut BundleManager, now: i128)
        ensures
            final(bundle_manager).storage@ == old(bundle_manager).storage@.filter(
                not_listed(expired_ids(old(bundle_manager).storage@, now as int)),
            ),
            final(bundle_manager).node_id == old(bundle_manager).node_id,
            final(bundle_manager).storage.capacity == old(bundle_manager).storage.capacity,
    {
        let ghost s = bundle_manager.storage@;
        let all = bundle_manager.all();
        let mut expired: Vec<u128> = Vec::new();
        let mut i: usize = 0;
        while i < all.len()
            invariant
                i <= all.len(),
                views(all@) == s,
                expired@ == s.take(i as int).filter(expired_now(now as int)).map_values(id_of()),
            decreases all.len() - i,
        {
            proof {
                crate::seqs::lemma_filter_take_step(s, expired_now(now as int), i as int);
            }
            if all[i].is_expired_at(now) {
                let ghost before = expired@;
                expired.push(all[i].id);
                assert(s.take(i as int).filter(expired_now(now as int)).push(s[i as int]).map_values(
                    id_of(),
                ) =~= before.push(s[i as int].id));
            }
            i = i + 1;
        }
        assert(s.take(s.len() as int) =~= s);
        let ghost ids = expired@;
        proof {
            assert(s.filter(not_listed(ids.take(0))) =~= s) by {
                crate::seqs::lemma_filter_all(s, not_listed(ids.take(0)));
            }
        }
        let mut k: usize = 0;
        while k < expired.len()
            invariant
                k <= expired.len(),
                expired@ == ids,
                bundle_manager.storage@ == s.filter(not_listed(ids.take(k as int))),
                bundle_manager.node_id == old(bundle_manager).node_id,
                bundle_manager.storage.capacity == old(bundle_manager).storage.capacity,
            decreases expired.len() - k,
        {
            let id = expired[k];
            let _ = bundle_manager.delete_bundle(id);
            proof {
                let p = not_listed(ids.take(k as int));
                let pq = not_listed(ids.take(k + 1));
                assert(ids.take(k + 1) =~= ids.take(k as int).push(id));
                assert forall|x: BundleView| #[trigger] pq(x) == (p(x) && other_than(id)(x)) by {
                    crate::seqs::lemma_push_contains(ids.take(k as int), id, x.id);
                }
                crate::seqs::lemma_filter_filter(s, p, other_than(id), pq);
            }
            k = k + 1;
        }
        assert(ids.take(ids.len() as int) =~= ids);
    }

    /// Deletes every expired bundle by the clock, as `drop_expired_bundles_at`.
    pub fn drop_expired_bundles(&self, bundle_manager: &mut BundleManager)
        ensures
            exists|secs: i64, nanos: u32|
                clock_reading(secs, nanos) && final(bundle_manager).storage@
                    == old(bundle_manager).storage@.filter(
                    not_listed(#[trigger] expired_ids(old(bundle_manager).storage@, instant(secs, nanos))),
                ),
            final(bundle_manager).node_id == old(bundle_manager).node_id,
            final(bundle_manager).storage.capacity == old(bundle_manager).storage.capacity,
    {
        let (secs, nanos) = unix_now();
        let now = instant_of(secs, nanos);
        self.drop_expired_bundles_at(bundle_manager, now)
    }
}

} // verus!
