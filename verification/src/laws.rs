//! Properties of the library that relate several operations or hold of
//! every state, proved over the models the operations' contracts use.
use vstd::prelude::*;

use crate::bundle_manager::{after_incoming_ack, after_upsert};
use crate::clock::representable_secs;
use crate::engine::{expired_ids, expired_now, not_listed, routed, with_status, RouteJobView};
use crate::epidemic::edges_of;
use crate::forward::{absent_from, forward_step, missing_on_peer, ActionView, EventView, ForwarderView};
use crate::ids::ack_id_of;
use crate::model::{ack_view, expired_at, BundleView, KindView, MsgStatus};
use crate::wire::{be_bytes, be_value, bundle_of_wire, reads_back, wire_of};
use crate::storage::{
    after_save, after_update, cleanup, contains_id, first_index, has_ack_for, is_first_with_id, save_refused,
    lemma_first_index_is, lemma_lookup_some_iff_contains, lookup, other_than, unexpired_at,
    without_id,
};

verus! {

/// No two stored bundles share an id.
pub open spec fn unique_ids(s: Seq<BundleView>) -> bool {
    forall|i: int, j: int| 0 <= i < s.len() && 0 <= j < s.len() && i != j ==> s[i].id != s[j].id
}

proof fn lemma_filter_keeps_unique(s: Seq<BundleView>, p: spec_fn(BundleView) -> bool)
    requires
        unique_ids(s),
    ensures
        unique_ids(s.filter(p)),
    decreases s.len(),
{
    reveal(Seq::filter);
    if s.len() > 0 {
        lemma_filter_keeps_unique(s.drop_last(), p);
        let sub = s.drop_last().filter(p);
        if p(s.last()) {
            assert forall|i: int| 0 <= i < sub.len() implies sub[i].id != s.last().id by {
                crate::seqs::lemma_filter_is_subseq(s.drop_last(), p, i);
            }
        }
    }
}

/// A bundle that was saved is what a lookup of its id finds.
pub proof fn law_saved_bundle_is_found(s: Seq<BundleView>, capacity: nat, b: BundleView, now: int)
    requires
        after_save(s, capacity, b, now).1,
    ensures
        lookup(after_save(s, capacity, b, now).0, b.id) == Some(b),
{
    let c = cleanup(s, now);
    let t = c.push(b);
    assert(is_first_with_id(t, b.id, c.len() as int));
    lemma_first_index_is(t, b.id, c.len() as int);
}

/// Saving refuses a bundle whose id is stored and unexpired: no duplicate.
pub proof fn law_save_refuses_stored_id(s: Seq<BundleView>, capacity: nat, b: BundleView, now: int)
    requires
        contains_id(cleanup(s, now), b.id),
    ensures
        !after_save(s, capacity, b, now).1,
        after_save(s, capacity, b, now).0 == cleanup(s, now),
{
}

/// Saving keeps the ids of a store distinct.
pub proof fn law_save_keeps_ids_unique(s: Seq<BundleView>, capacity: nat, b: BundleView, now: int)
    requires
        unique_ids(s),
    ensures
        unique_ids(after_save(s, capacity, b, now).0),
{
    lemma_filter_keeps_unique(s, unexpired_at(now));
}

/// A store never grows beyond its capacity by saving.
pub proof fn law_save_respects_capacity(s: Seq<BundleView>, capacity: nat, b: BundleView, now: int)
    requires
        s.len() <= capacity,
    ensures
        after_save(s, capacity, b, now).0.len() <= capacity,
{
    s.lemma_filter_len(unexpired_at(now));
}

/// After deleting an id, no stored bundle has it.
pub proof fn law_deleted_id_is_gone(s: Seq<BundleView>, id: u128)
    ensures
        !contains_id(without_id(s, id), id),
        lookup(without_id(s, id), id) is None,
{
    let t = without_id(s, id);
    if contains_id(t, id) {
        let i = choose|i: int| 0 <= i < t.len() && t[i].id == id;
        s.lemma_filter_pred(other_than(id), i);
    }
    lemma_lookup_some_iff_contains(t, id);
}

/// After cleanup at time `now`, no stored bundle has expired at `now`, and
/// every bundle that has not is kept.
pub proof fn law_cleanup_leaves_only_unexpired(s: Seq<BundleView>, now: int)
    ensures
        forall|i: int| 0 <= i < cleanup(s, now).len() ==> !expired_at(#[trigger] cleanup(s, now)[i], now),
        forall|i: int| 0 <= i < s.len() && !expired_at(s[i], now) ==> cleanup(s, now).contains(#[trigger] s[i]),
{
    assert forall|i: int| 0 <= i < cleanup(s, now).len() implies !expired_at(
        #[trigger] cleanup(s, now)[i],
        now,
    ) by {
        s.lemma_filter_pred(unexpired_at(now), i);
    }
    assert forall|i: int| 0 <= i < s.len() && !expired_at(s[i], now) implies cleanup(s, now).contains(
        #[trigger] s[i],
    ) by {
        s.lemma_filter_contains(unexpired_at(now), i);
    }
}

/// A data bundle whose acknowledgement is stored is not brought back: saving
/// and updating both refuse it.
pub proof fn law_acknowledged_data_is_not_resurrected(
    s: Seq<BundleView>,
    capacity: nat,
    d: BundleView,
    now: int,
)
    requires
        d.kind is Data,
        has_ack_for(cleanup(s, now), d.id),
    ensures
        !after_save(s, capacity, d, now).1,
        after_update(cleanup(s, now), d) == (cleanup(s, now), false),
{
}

/// An upsert the store took leaves the bundle findable under its id.
pub proof fn law_upserted_bundle_is_found(s: Seq<BundleView>, capacity: nat, b: BundleView, now: int)
    requires
        after_upsert(s, capacity, b, now).1,
    ensures
        lookup(after_upsert(s, capacity, b, now).0, b.id) == Some(b),
{
    if contains_id(s, b.id) {
        lemma_lookup_some_iff_contains(s, b.id);
        let i = crate::storage::first_index(s, b.id)->0;
        let t = s.update(i, b);
        assert(is_first_with_id(t, b.id, i));
        lemma_first_index_is(t, b.id, i);
    } else {
        law_saved_bundle_is_found(s, capacity, b, now);
    }
}

/// Handling an acknowledgement of data bundle `D` removes every bundle with
/// id `D` (unless the acknowledgement itself has that id and was kept); one
/// that was new is then stored.
pub proof fn law_incoming_ack_removes_data(s: Seq<BundleView>, capacity: nat, ack: BundleView, now: int)
    requires
        ack.kind is Ack,
    ensures
        ({
            let (s2, fresh) = after_incoming_ack(s, capacity, ack, now);
            let d = ack.kind->ack_bundle_id;
            &&& !contains_id(s2, d) || (fresh && ack.id == d)
            &&& fresh ==> lookup(s2, ack.id) == Some(ack)
        }),
{
    let d = ack.kind->ack_bundle_id;
    let s1 = without_id(s, d);
    law_deleted_id_is_gone(s, d);
    let (s2, fresh) = after_incoming_ack(s, capacity, ack, now);
    if !(has_ack_for(s1, d) || contains_id(s1, ack.id)) {
        let c = cleanup(s1, now);
        if contains_id(c, d) {
            let i = choose|i: int| 0 <= i < c.len() && c[i].id == d;
            crate::seqs::lemma_filter_is_subseq(s1, unexpired_at(now), i);
        }
        if fresh {
            law_saved_bundle_is_found(s1, capacity, ack, now);
        } else {
            if contains_id(s2, d) {
                assert(s2 == c);
            }
        }
    }
}

/// An acknowledgement of a data bundle is new at most once: once one was
/// kept (with an id other than the data bundle's), any later one for the
/// same data bundle is not new.
pub proof fn law_second_ack_is_not_new(
    s: Seq<BundleView>,
    capacity: nat,
    first: BundleView,
    second: BundleView,
    now1: int,
    now2: int,
)
    requires
        first.kind is Ack,
        second.kind == first.kind,
        first.id != first.kind->ack_bundle_id,
        after_incoming_ack(s, capacity, first, now1).1,
    ensures
        !after_incoming_ack(after_incoming_ack(s, capacity, first, now1).0, capacity, second, now2).1,
{
    let d = first.kind->ack_bundle_id;
    let s2 = after_incoming_ack(s, capacity, first, now1).0;
    law_incoming_ack_removes_data(s, capacity, first, now1);
    lemma_lookup_some_iff_contains(s2, first.id);
    let i = crate::storage::first_index(s2, first.id)->0;
    let t = without_id(s2, d);
    s2.lemma_filter_contains(other_than(d), i);
    let k = choose|k: int| 0 <= k < t.len() && t[k] == s2[i];
    assert(t[k].kind == (KindView::Ack { ack_bundle_id: d }));
    assert(has_ack_for(t, d));
}

/// Updating keeps the ids of a store distinct.
pub proof fn law_update_keeps_ids_unique(s: Seq<BundleView>, b: BundleView)
    requires
        unique_ids(s),
    ensures
        unique_ids(after_update(s, b).0),
{
    if after_update(s, b).1 {
        lemma_lookup_some_iff_contains(s, b.id);
    }
}

/// Deleting and expiry cleanup keep the ids of a store distinct.
pub proof fn law_delete_and_cleanup_keep_ids_unique(s: Seq<BundleView>, id: u128, now: int)
    requires
        unique_ids(s),
    ensures
        unique_ids(without_id(s, id)),
        unique_ids(cleanup(s, now)),
{
    lemma_filter_keeps_unique(s, other_than(id));
    lemma_filter_keeps_unique(s, unexpired_at(now));
}

/// Upserting and handling an acknowledgement keep the ids of a store
/// distinct and its size within capacity.
pub proof fn law_upsert_and_ack_keep_store_sound(
    s: Seq<BundleView>,
    capacity: nat,
    b: BundleView,
    now: int,
)
    requires
        unique_ids(s),
        s.len() <= capacity,
    ensures
        unique_ids(after_upsert(s, capacity, b, now).0),
        after_upsert(s, capacity, b, now).0.len() <= capacity,
        unique_ids(after_incoming_ack(s, capacity, b, now).0),
        after_incoming_ack(s, capacity, b, now).0.len() <= capacity,
{
    law_save_keeps_ids_unique(s, capacity, b, now);
    law_save_respects_capacity(s, capacity, b, now);
    law_update_keeps_ids_unique(s, b);
    if b.kind is Ack {
        let d = b.kind->ack_bundle_id;
        let s1 = without_id(s, d);
        lemma_filter_keeps_unique(s, other_than(d));
        s.lemma_filter_len(other_than(d));
        law_save_keeps_ids_unique(s1, capacity, b, now);
        law_save_respects_capacity(s1, capacity, b, now);
    }
}

/// After dropping expired bundles at time `now`, none of those kept has
/// expired at `now`.
pub proof fn law_drop_expired_leaves_no_expired(s: Seq<BundleView>, now: int)
    ensures
        forall|i: int|
            0 <= i < s.filter(not_listed(expired_ids(s, now))).len() ==> !expired_at(
                #[trigger] s.filter(not_listed(expired_ids(s, now)))[i],
                now,
            ),
{
    let ids = expired_ids(s, now);
    let t = s.filter(not_listed(ids));
    assert forall|i: int| 0 <= i < t.len() implies !expired_at(#[trigger] t[i], now) by {
        s.lemma_filter_pred(not_listed(ids), i);
        if expired_at(t[i], now) {
            crate::seqs::lemma_filter_is_subseq(s, not_listed(ids), i);
            let j = choose|j: int| 0 <= j < s.len() && s[j] == t[i];
            s.lemma_filter_contains(expired_now(now), j);
            let e = s.filter(expired_now(now));
            let k = choose|k: int| 0 <= k < e.len() && e[k] == s[j];
            assert(ids[k] == t[i].id);
        }
    }
}

/// Whatever a forwarder sends goes to a connected peer other than the
/// forwarding node, is one of the candidates, and is missing from that
/// peer's summary vector.
pub proof fn law_forwarder_sends_only_what_peer_lacks(v: ForwarderView, e: EventView)
    requires
        v.wf(),
    ensures
        forward_step(v, e).1 matches ActionView::Send { bundle, peer } ==> {
            let v2 = forward_step(v, e).0;
            &&& peer.id != v.self_id
            &&& v2.peers.contains(peer)
            &&& v.candidates.contains(bundle)
            &&& !v2.summary.contains(bundle.id)
        },
{
    let (v2, a) = forward_step(v, e);
    if let ActionView::Send { bundle, peer } = a {
        assert(v2.peers == v.peers);
        assert(peer == v.peers[v.peer_index]);
        assert(v2.peers[v.peer_index] == peer);
        let q = missing_on_peer(v.candidates, v2.summary);
        let k = if e is Summary { 0int } else { v2.queue_index };
        assert(bundle == q[k]);
        v.candidates.lemma_filter_pred(absent_from(v2.summary), k);
        crate::seqs::lemma_filter_is_subseq(v.candidates, absent_from(v2.summary), k);
    }
}

/// A peer whose summary vector names every candidate is sent nothing.
pub proof fn law_peer_holding_everything_gets_nothing(candidates: Seq<BundleView>, peer_sv: Seq<u128>)
    requires
        forall|i: int| 0 <= i < candidates.len() ==> peer_sv.contains(#[trigger] candidates[i].id),
    ensures
        missing_on_peer(candidates, peer_sv).len() == 0,
{
    let q = missing_on_peer(candidates, peer_sv);
    if q.len() > 0 {
        candidates.lemma_filter_pred(absent_from(peer_sv), 0);
        crate::seqs::lemma_filter_is_subseq(candidates, absent_from(peer_sv), 0);
    }
}

/// A bundle other than an acknowledgement that has expired is marked
/// expired, leaves the store and is not forwarded.
pub proof fn law_expired_bundle_is_dropped(
    me: u128,
    peers: Seq<u128>,
    s: Seq<BundleView>,
    cap: nat,
    b: BundleView,
    now: int,
    ack_secs: i64,
    ack_nanos: u32,
    s2: Seq<BundleView>,
    b2: BundleView,
    job: Option<RouteJobView>,
)
    requires
        routed(me, peers, s, cap, b, now, ack_secs, ack_nanos, s2, b2, job),
        !(b.kind is Ack),
        expired_at(b, now),
    ensures
        job is None,
        b2.shipment_status == MsgStatus::Expired,
        !contains_id(s2, b.id),
{
    law_deleted_id_is_gone(s, b.id);
}

/// A data bundle that reaches its destination unexpired is delivered there.
/// Its acknowledgement, with the id derived from the bundle's and the time
/// handed in, is stored and announced, and is the only bundle announced,
/// unless that id is already taken or the store refuses it; then nothing is
/// announced.
pub proof fn law_delivered_bundle_is_acknowledged(
    me: u128,
    peers: Seq<u128>,
    s: Seq<BundleView>,
    cap: nat,
    b: BundleView,
    now: int,
    ack_secs: i64,
    ack_nanos: u32,
    s2: Seq<BundleView>,
    b2: BundleView,
    job: Option<RouteJobView>,
)
    requires
        routed(me, peers, s, cap, b, now, ack_secs, ack_nanos, s2, b2, job),
        b.kind is Data,
        !expired_at(b, now),
        me == b.destination.id,
    ensures
        b2 == with_status(b, MsgStatus::Delivered),
        ({
            let s1 = after_upsert(s, cap, b2, now).0;
            let ack = ack_view(b2, ack_id_of(b.id), ack_secs, ack_nanos);
            &&& job is Some <==> (!contains_id(s1, ack.id) && after_save(s1, cap, ack, now).1)
            &&& job matches Some(j) ==> {
                &&& j.forwarder.candidates == seq![ack]
                &&& j.purpose == (crate::engine::PurposeView::AnnounceAck { ack })
                &&& lookup(s2, ack.id) == Some(ack)
            }
        }),
{
    let s1 = after_upsert(s, cap, b2, now).0;
    let ack = ack_view(b2, ack_id_of(b.id), ack_secs, ack_nanos);
    if job is Some {
        law_saved_bundle_is_found(s1, cap, ack, now);
    }
}

/// A data bundle delivered at its destination is acknowledged once: when
/// routing it there announced its acknowledgement, routing it there again
/// announces nothing, while that acknowledgement has not expired.
pub proof fn law_delivered_bundle_is_acknowledged_once(
    me: u128,
    peers: Seq<u128>,
    s: Seq<BundleView>,
    cap: nat,
    b: BundleView,
    now1: int,
    ack_secs1: i64,
    ack_nanos1: u32,
    s2: Seq<BundleView>,
    b2: BundleView,
    job1: Option<RouteJobView>,
    now2: int,
    ack_secs2: i64,
    ack_nanos2: u32,
    s3: Seq<BundleView>,
    b3: BundleView,
    job2: Option<RouteJobView>,
)
    requires
        b.kind is Data,
        me == b.destination.id,
        routed(me, peers, s, cap, b, now1, ack_secs1, ack_nanos1, s2, b2, job1),
        job1 is Some,
        routed(me, peers, s2, cap, b, now2, ack_secs2, ack_nanos2, s3, b3, job2),
        !expired_at(ack_view(with_status(b, MsgStatus::Delivered), ack_id_of(b.id), ack_secs1, ack_nanos1), now2),
    ensures
        job2 is None,
{
    let d = with_status(b, MsgStatus::Delivered);
    let ack = ack_view(d, ack_id_of(b.id), ack_secs1, ack_nanos1);
    law_delivered_bundle_is_acknowledged(me, peers, s, cap, b, now1, ack_secs1, ack_nanos1, s2, b2, job1);
    if !expired_at(b, now2) {
        lemma_lookup_some_iff_contains(s2, ack.id);
        let k = first_index(s2, ack.id).unwrap();
        lemma_upsert_keeps_unexpired(s2, cap, d, now2, k);
    }
}

/// An upsert at time `now` keeps a stored bundle's id stored, when that
/// bundle has not expired at `now`.
proof fn lemma_upsert_keeps_unexpired(s: Seq<BundleView>, cap: nat, b: BundleView, now: int, k: int)
    requires
        0 <= k < s.len(),
        !expired_at(s[k], now),
    ensures
        contains_id(after_upsert(s, cap, b, now).0, s[k].id),
{
    let t = after_upsert(s, cap, b, now).0;
    if contains_id(s, b.id) {
        match first_index(s, b.id) {
            Some(i) => if !(b.kind is Data && has_ack_for(s, b.id)) {
                lemma_lookup_some_iff_contains(s, b.id);
                if i == k {
                    assert(t[k].id == s[k].id);
                } else {
                    assert(t[k] == s[k]);
                }
            },
            None => {},
        }
    } else {
        let c = cleanup(s, now);
        s.lemma_filter_contains(unexpired_at(now), k);
        let j = choose|j: int| 0 <= j < c.len() && c[j] == s[k];
        if !save_refused(c, cap, b) {
            assert(c.push(b)[j] == s[k]);
        }
    }
}

/// A data or acknowledgement bundle crosses the wire unchanged but for its
/// status, which arrives pending, and its creation time, which arrives in
/// whole seconds, where that time is within the calendar.
pub proof fn law_wire_round_trip(b: BundleView)
    requires
        b.kind is Data || b.kind is Ack,
        representable_secs(b.timestamp),
        reads_back(wire_of(b), b),
    ensures
        bundle_of_wire(wire_of(b)) == (BundleView {
            timestamp_nanos: 0,
            ..with_status(b, MsgStatus::Pending)
        }),
{
    let w = wire_of(b);
    let r = bundle_of_wire(w);
    assert(r.source.peers =~= b.source.peers);
    assert(r.destination.peers =~= b.destination.peers);
    assert(r.source =~= b.source);
    assert(r.destination =~= b.destination);
}

/// The length a frame announces is the payload's length, for any payload
/// shorter than 2^32 bytes.
pub proof fn law_frame_length_round_trip(n: u32)
    ensures
        be_value(be_bytes(n)) == n,
{
    let x = n as int;
    let a = x / 0x100_0000;
    let b = x / 0x1_0000 % 0x100;
    let c = x / 0x100 % 0x100;
    let d = x % 0x100;
    assert(a * 0x100_0000 + b * 0x1_0000 + c * 0x100 + d == x) by (nonlinear_arith)
        requires
            0 <= x < 0x1_0000_0000,
            a == x / 0x100_0000,
            b == x / 0x1_0000 % 0x100,
            c == x / 0x100 % 0x100,
            d == x % 0x100,
    ;
}

/// Adding a peer then removing it leaves the other peers as removing alone
/// would.
pub proof fn law_add_then_remove_peer(peers: Seq<u128>, p: u128)
    ensures
        crate::engine::with_node(peers, p).filter(|q: u128| q != p) == peers.filter(|q: u128| q != p),
{
    reveal(Seq::filter);
    if !peers.contains(p) {
        assert(peers.push(p).drop_last() =~= peers);
    }
}

/// Adding an edge changes only the source's edges, by appending it.
pub proof fn law_add_edge_touches_only_source(
    g: Map<u128, Seq<(u128, u32)>>,
    source: u128,
    destination: u128,
    cost: u32,
    other: u128,
)
    ensures
        edges_of(g.insert(source, edges_of(g, source).push((destination, cost))), source) == edges_of(
            g,
            source,
        ).push((destination, cost)),
        other != source ==> edges_of(
            g.insert(source, edges_of(g, source).push((destination, cost))),
            other,
        ) == edges_of(g, other),
{
}

/// A node relays an acknowledgement of a data bundle at most once: once one
/// was relayed (with an id other than the data bundle's), routing any later
/// acknowledgement of the same data bundle forwards nothing.
pub proof fn law_ack_relayed_once(
    me: u128,
    peers: Seq<u128>,
    s: Seq<BundleView>,
    cap: nat,
    first: BundleView,
    now1: int,
    ack_secs1: i64,
    ack_nanos1: u32,
    s2: Seq<BundleView>,
    b2: BundleView,
    job1: Option<RouteJobView>,
    second: BundleView,
    now2: int,
    ack_secs2: i64,
    ack_nanos2: u32,
    s3: Seq<BundleView>,
    b3: BundleView,
    job2: Option<RouteJobView>,
)
    requires
        first.kind is Ack,
        first.id != first.kind->ack_bundle_id,
        routed(me, peers, s, cap, first, now1, ack_secs1, ack_nanos1, s2, b2, job1),
        job1 is Some,
        second.kind == first.kind,
        routed(me, peers, s2, cap, second, now2, ack_secs2, ack_nanos2, s3, b3, job2),
    ensures
        job2 is None,
{
    if me != second.destination.id {
        law_second_ack_is_not_new(s, cap, first, second, now1, now2);
    }
}

/// A bundle with id `id`.
pub open spec fn has_id(id: u128) -> spec_fn(BundleView) -> bool {
    |x: BundleView| x.id == id
}

/// How many stored bundles have id `id`.
pub open spec fn copies(s: Seq<BundleView>, id: u128) -> nat {
    s.filter(has_id(id)).len()
}

/// Saving the same bundle twice: the second save, while the bundle has not
/// expired, is refused, and the store holds exactly one bundle with its id.
pub proof fn law_second_save_is_refused(s: Seq<BundleView>, capacity: nat, b: BundleView, now1: int, now2: int)
    requires
        after_save(s, capacity, b, now1).1,
        !expired_at(b, now2),
    ensures
        !after_save(after_save(s, capacity, b, now1).0, capacity, b, now2).1,
        copies(after_save(after_save(s, capacity, b, now1).0, capacity, b, now2).0, b.id) == 1,
{
    let c1 = cleanup(s, now1);
    let s1 = c1.push(b);
    let s2 = cleanup(s1, now2);
    assert(s1[c1.len() as int] == b);
    s1.lemma_filter_contains(unexpired_at(now2), c1.len() as int);
    let k = choose|k: int| 0 <= k < s2.len() && s2[k] == b;
    assert(contains_id(s2, b.id));
    let pq = |x: BundleView| !expired_at(x, now2) && x.id == b.id;
    crate::seqs::lemma_filter_filter(s1, unexpired_at(now2), has_id(b.id), pq);
    reveal(Seq::filter);
    assert(s1.drop_last() =~= c1);
    let e = c1.filter(pq);
    if e.len() > 0 {
        c1.lemma_filter_pred(pq, 0);
        crate::seqs::lemma_filter_is_subseq(c1, pq, 0);
        assert(contains_id(c1, b.id));
    }
    assert(s1.filter(pq) == e.push(b));
}

/// A filter keeps exactly the elements that satisfy its predicate.
proof fn lemma_filter_exactly<A>(s: Seq<A>, p: spec_fn(A) -> bool)
    ensures
        forall|i: int|
            0 <= i < s.filter(p).len() ==> p(#[trigger] s.filter(p)[i]) && s.contains(s.filter(p)[i]),
        forall|k: int| 0 <= k < s.len() && p(#[trigger] s[k]) ==> s.filter(p).contains(s[k]),
{
    assert forall|i: int| 0 <= i < s.filter(p).len() implies p(#[trigger] s.filter(p)[i]) && s.contains(
        s.filter(p)[i],
    ) by {
        s.lemma_filter_pred(p, i);
        crate::seqs::lemma_filter_is_subseq(s, p, i);
    }
    assert forall|k: int| 0 <= k < s.len() && p(#[trigger] s[k]) implies s.filter(p).contains(s[k]) by {
        s.lemma_filter_contains(p, k);
    }
}

/// Appending a node id keeps every id already listed and lists the new one.
proof fn lemma_with_node_lists(ids: Seq<u128>, x: u128)
    ensures
        crate::engine::with_node(ids, x).contains(x),
        forall|i: int| 0 <= i < ids.len() ==> crate::engine::with_node(ids, x).contains(#[trigger] ids[i]),
{
    if !ids.contains(x) {
        assert(ids.push(x)[ids.len() as int] == x);
        assert forall|i: int| 0 <= i < ids.len() implies ids.push(x).contains(#[trigger] ids[i]) by {
            assert(ids.push(x)[i] == ids[i]);
        }
    }
}

/// Relaying a bundle that is neither an acknowledgement, expired, nor at its
/// destination: it is saved, and the forwarding offers every stored bundle
/// that is pending and no other (none delivered, expired or in transit).
pub proof fn law_relay_offers_exactly_the_pending_bundles(
    me: u128,
    peers: Seq<u128>,
    s: Seq<BundleView>,
    cap: nat,
    b: BundleView,
    now: int,
    ack_secs: i64,
    ack_nanos: u32,
    s2: Seq<BundleView>,
    b2: BundleView,
    job: Option<RouteJobView>,
)
    requires
        routed(me, peers, s, cap, b, now, ack_secs, ack_nanos, s2, b2, job),
        !(b.kind is Ack),
        !expired_at(b, now),
        me != b.destination.id,
    ensures
        s2 == after_save(s, cap, b, now).0,
        job matches Some(j) && {
            let c = j.forwarder.candidates;
            &&& j.purpose == crate::engine::PurposeView::RelayData
            &&& forall|i: int|
                0 <= i < c.len() ==> (#[trigger] c[i]).shipment_status == MsgStatus::Pending && s2.contains(c[i])
            &&& forall|k: int|
                0 <= k < s2.len() && (#[trigger] s2[k]).shipment_status == MsgStatus::Pending ==> c.contains(s2[k])
        },
{
    lemma_filter_exactly(s2, crate::engine::awaiting(false));
}

/// Whatever routing forwards, the registry is asked about every configured
/// peer and about the node at the other end: the destination of a relayed
/// acknowledgement, the source of a relayed bundle, and the source of the
/// data bundle whose acknowledgement is announced, so that the
/// acknowledgement travels back to it.
pub proof fn law_registry_is_asked_about_the_other_end(
    me: u128,
    peers: Seq<u128>,
    s: Seq<BundleView>,
    cap: nat,
    b: BundleView,
    now: int,
    ack_secs: i64,
    ack_nanos: u32,
    s2: Seq<BundleView>,
    b2: BundleView,
    job: Option<RouteJobView>,
)
    requires
        routed(me, peers, s, cap, b, now, ack_secs, ack_nanos, s2, b2, job),
    ensures
        job matches Some(j) ==> {
            &&& forall|i: int| 0 <= i < peers.len() ==> j.forwarder.requested.contains(#[trigger] peers[i])
            &&& j.forwarder.requested.contains(if b.kind is Ack { b.destination.id } else { b.source.id })
        },
        job matches Some(j) ==> (j.purpose is AnnounceAck ==> {
            &&& me == b.destination.id
            &&& j.forwarder.requested.contains(b.source.id)
            &&& j.forwarder.candidates == seq![
                ack_view(with_status(b, MsgStatus::Delivered), ack_id_of(b.id), ack_secs, ack_nanos),
            ]
        }),
{
    lemma_with_node_lists(peers, b.source.id);
    lemma_with_node_lists(peers, b.destination.id);
}

/// An incoming acknowledgement of data bundle `D`: every bundle with id `D`
/// leaves the store. The acknowledgement is new exactly when no
/// acknowledgement of `D` and no bundle with its own id remain stored and the
/// store, cleared of what has expired, has room; acknowledgements of other
/// data bundles play no part. A new one is appended to the cleared store; a
/// known one changes nothing more.
pub proof fn law_incoming_ack_is_new_unless_known(s: Seq<BundleView>, cap: nat, ack: BundleView, now: int)
    requires
        ack.kind is Ack,
    ensures
        ({
            let d = ack.kind->ack_bundle_id;
            let rest = without_id(s, d);
            let known = exists|k: int|
                0 <= k < rest.len() && ((#[trigger] rest[k]).kind == (KindView::Ack { ack_bundle_id: d })
                    || rest[k].id == ack.id);
            let kept = cleanup(rest, now);
            let (s2, fresh) = after_incoming_ack(s, cap, ack, now);
            &&& fresh <==> (!known && kept.len() < cap)
            &&& fresh ==> s2 == kept.push(ack)
            &&& known ==> s2 == rest
            &&& !known && !fresh ==> s2 == kept
        }),
{
    let d = ack.kind->ack_bundle_id;
    let rest = without_id(s, d);
    let kept = cleanup(rest, now);
    if contains_id(kept, ack.id) {
        let i = choose|i: int| 0 <= i < kept.len() && kept[i].id == ack.id;
        crate::seqs::lemma_filter_is_subseq(rest, unexpired_at(now), i);
    }
}

/// Retrying offers exactly the stored bundles that are pending or in
/// transit: every one of them, in particular every bundle in transit, and
/// none that is delivered or expired; there is a retry exactly when some
/// stored bundle is pending or in transit.
pub proof fn law_retry_offers_pending_and_in_transit(s: Seq<BundleView>)
    ensures
        ({
            let c = s.filter(crate::engine::awaiting(true));
            &&& forall|i: int|
                0 <= i < c.len() ==> s.contains(#[trigger] c[i]) && (c[i].shipment_status == MsgStatus::Pending
                    || c[i].shipment_status == MsgStatus::InTransit)
            &&& forall|k: int|
                0 <= k < s.len() && ((#[trigger] s[k]).shipment_status == MsgStatus::Pending
                    || s[k].shipment_status == MsgStatus::InTransit) ==> c.contains(s[k])
            &&& c.len() > 0 <==> exists|k: int|
                0 <= k < s.len() && ((#[trigger] s[k]).shipment_status == MsgStatus::Pending
                    || s[k].shipment_status == MsgStatus::InTransit)
        }),
{
    let p = crate::engine::awaiting(true);
    let c = s.filter(p);
    lemma_filter_exactly(s, p);
    if c.len() > 0 {
        assert(s.contains(c[0]));
        let k = choose|k: int| 0 <= k < s.len() && s[k] == c[0];
        assert(p(s[k]));
    }
    if exists|k: int|
        0 <= k < s.len() && ((#[trigger] s[k]).shipment_status == MsgStatus::Pending
            || s[k].shipment_status == MsgStatus::InTransit) {
        let k = choose|k: int|
            0 <= k < s.len() && ((#[trigger] s[k]).shipment_status == MsgStatus::Pending
                || s[k].shipment_status == MsgStatus::InTransit);
        assert(c.contains(s[k]));
    }
}

/// A bundle none of whose id-sharers has expired survives dropping.
proof fn lemma_drop_keeps(s: Seq<BundleView>, now: int, k: int)
    requires
        0 <= k < s.len(),
        forall|j: int| 0 <= j < s.len() && s[j].id == s[k].id ==> !expired_at(#[trigger] s[j], now),
    ensures
        s.filter(not_listed(expired_ids(s, now))).contains(s[k]),
{
    let ids = expired_ids(s, now);
    let e = s.filter(expired_now(now));
    if ids.contains(s[k].id) {
        let m = choose|m: int| 0 <= m < ids.len() && ids[m] == s[k].id;
        s.lemma_filter_pred(expired_now(now), m);
        crate::seqs::lemma_filter_is_subseq(s, expired_now(now), m);
        let j = choose|j: int| 0 <= j < s.len() && s[j] == e[m];
        assert(s[j].id == s[k].id);
    }
    s.lemma_filter_contains(not_listed(ids), k);
}

/// With distinct ids, a bundle survives dropping exactly when it has not
/// expired.
proof fn lemma_drop_unique(s: Seq<BundleView>, now: int, k: int)
    requires
        unique_ids(s),
        0 <= k < s.len(),
    ensures
        s.filter(not_listed(expired_ids(s, now))).contains(s[k]) <==> !expired_at(s[k], now),
{
    let r = s.filter(not_listed(expired_ids(s, now)));
    if r.contains(s[k]) {
        law_drop_expired_leaves_no_expired(s, now);
        let i = choose|i: int| 0 <= i < r.len() && r[i] == s[k];
        assert(!expired_at(r[i], now));
    }
    if !expired_at(s[k], now) {
        assert forall|j: int| 0 <= j < s.len() && s[j].id == s[k].id implies !expired_at(#[trigger] s[j], now) by {
            if j != k {
                assert(s[j].id != s[k].id);
            }
        }
        lemma_drop_keeps(s, now, k);
    }
}

/// Dropping expired bundles at time `now` keeps, in store order, every
/// stored bundle that has not expired at `now` (unless it shares its id with
/// one that has, as deletion goes by id) and removes every one that has; with
/// distinct ids, exactly the unexpired bundles stay.
#[verifier::spinoff_prover]
pub proof fn law_drop_expired_keeps_the_unexpired(s: Seq<BundleView>, now: int)
    ensures
        ({
            let r = s.filter(not_listed(expired_ids(s, now)));
            &&& forall|i: int| 0 <= i < r.len() ==> s.contains(#[trigger] r[i]) && !expired_at(r[i], now)
            &&& forall|k: int|
                0 <= k < s.len() && (forall|j: int| 0 <= j < s.len() && s[j].id == s[k].id ==> !expired_at(
                    #[trigger] s[j],
                    now,
                )) ==> r.contains(#[trigger] s[k])
            &&& unique_ids(s) ==> forall|k: int| 0 <= k < s.len() ==> (r.contains(#[trigger] s[k]) <==> !expired_at(s[k], now))
        }),
{
    let r = s.filter(not_listed(expired_ids(s, now)));
    law_drop_expired_leaves_no_expired(s, now);
    assert forall|i: int| 0 <= i < r.len() implies s.contains(#[trigger] r[i]) by {
        crate::seqs::lemma_filter_is_subseq(s, not_listed(expired_ids(s, now)), i);
    }
    assert forall|k: int|
        0 <= k < s.len() && (forall|j: int| 0 <= j < s.len() && s[j].id == s[k].id ==> !expired_at(
            #[trigger] s[j],
            now,
        )) implies r.contains(#[trigger] s[k]) by {
        lemma_drop_keeps(s, now, k);
    }
    assert forall|k: int| unique_ids(s) && 0 <= k < s.len() implies (r.contains(#[trigger] s[k]) <==> !expired_at(
        s[k],
        now,
    )) by {
        lemma_drop_unique(s, now, k);
    }
}

} // verus!
