//! A node's access to its bundle store, and how acknowledgements clean it up.
use vstd::prelude::*;
use vstd::string::*;

use crate::clock::{clock_reading, instant, instant_of, unix_now};
use crate::model::{Bundle, BundleKind, BundleView, KindView, MsgStatus};
use crate::storage::{
    after_save, after_update, contains_id, first_index, has_ack_for, lemma_lookup_some_iff_contains,
    lookup, other_than, path_join, views, without_id, StorageLayer,
};

verus! {

/// How many bundles a node's store accepts.
pub const STORE_CAPACITY: usize = 100;

/// Upserting: an update when the id is stored, a save otherwise.
pub open spec fn after_upsert(s: Seq<BundleView>, capacity: nat, b: BundleView, now: int) -> (
    Seq<BundleView>,
    bool,
) {
    if contains_id(s, b.id) {
        after_update(s, b)
    } else {
        after_save(s, capacity, b, now)
    }
}

/// Receiving an acknowledgement of the data bundle `D`: every bundle with id
/// `D` leaves the store; then the acknowledgement is saved unless one for `D`
/// or a bundle with its own id is already stored. The flag says whether it
/// was saved, that is, whether it was new. Anything but an acknowledgement
/// changes nothing.
pub open spec fn after_incoming_ack(s: Seq<BundleView>, capacity: nat, ack: BundleView, now: int) -> (
    Seq<BundleView>,
    bool,
) {
    match ack.kind {
        KindView::Ack { ack_bundle_id } => {
            let s1 = without_id(s, ack_bundle_id);
            if has_ack_for(s1, ack_bundle_id) || contains_id(s1, ack.id) {
                (s1, false)
            } else {
                after_save(s1, capacity, ack, now)
            }
        },
        _ => (s, false),
    }
}

/// A node's access to its bundle store.
pub struct BundleManager {
    pub node_id: u128,
    pub storage: StorageLayer,
}

impl Clone for BundleManager {
    fn clone(&self) -> (res: Self)
        ensures
            res.node_id == self.node_id,
            res.storage@ == self.storage@,
            res.storage.capacity == self.storage.capacity,
            res.storage.storage_dir@ == self.storage.storage_dir@,
    {
        BundleManager { node_id: self.node_id, storage: self.storage.clone() }
    }
}

impl BundleManager {
    /// The manager of node `node_id`, whose store lives in `./bundles/<name>`
    /// taken from `base_dir`, and holds at most `STORE_CAPACITY` bundles; it
    /// starts empty.
    pub fn new(node_id: u128, name: String, base_dir: String) -> (m: Self)
        ensures
            m.node_id == node_id,
            m.storage@ == Seq::<BundleView>::empty(),
            m.storage.capacity == STORE_CAPACITY,
            m.storage.storage_dir@ == path_join(base_dir@, "./bundles/"@ + name@),
    {
        let mut dir = String::from_str("./bundles/");
        dir.append(name.as_str());
        BundleManager { node_id, storage: StorageLayer::new(dir, STORE_CAPACITY, base_dir) }
    }

    /// Every stored bundle: the node's summary vector.
    pub fn get_bundles_from_node(&self) -> (r: Vec<Bundle>)
        ensures
            views(r@) == self.storage@,
    {
        self.storage.get_all_bundles()
    }

    /// The stored bundle with id `bundle_id`, if any.
    pub fn get(&self, bundle_id: u128) -> (r: Option<Bundle>)
        ensures
            match r {
                Some(b) => lookup(self.storage@, bundle_id) == Some(b@),
                None => lookup(self.storage@, bundle_id) is None,
            },
    {
        self.storage.get_bundle(bundle_id)
    }

    /// Deletes the bundles with id `bundle_id`; says whether there was one.
    pub fn delete_bundle(&mut self, bundle_id: u128) -> (deleted: bool)
        ensures
            final(self).storage@ == without_id(old(self).storage@, bundle_id),
            deleted == contains_id(old(self).storage@, bundle_id),
            final(self).node_id == old(self).node_id,
            final(self).storage.capacity == old(self).storage.capacity,
    {
        self.storage.delete_bundle(bundle_id)
    }

    /// Saves `bundle` at time `now` (see `StorageLayer::save_bundle_at`).
    pub fn save_bundle_at(&mut self, bundle: &Bundle, now: i128) -> (saved: bool)
        ensures
            (final(self).storage@, saved) == after_save(
                old(self).storage@,
                old(self).storage.capacity as nat,
                bundle@,
                now as int,
            ),
            final(self).node_id == old(self).node_id,
            final(self).storage.capacity == old(self).storage.capacity,
    {
        self.storage.save_bundle_at(bundle, now)
    }

    /// Saves `bundle` at the time the clock reads.
    pub fn save_bundle(&mut self, bundle: &Bundle) -> (saved: bool)
        ensures
            exists|secs: i64, nanos: u32|
                clock_reading(secs, nanos) && (final(self).storage@, saved) == #[trigger] after_save(
                    old(self).storage@,
                    old(self).storage.capacity as nat,
                    bundle@,
                    instant(secs, nanos),
                ),
            final(self).node_id == old(self).node_id,
            final(self).storage.capacity == old(self).storage.capacity,
    {
        let (secs, nanos) = unix_now();
        let now = instant_of(secs, nanos);
        self.save_bundle_at(bundle, now)
    }

    /// Updates `bundle` when its id is stored, saves it at time `now`
    /// otherwise; says whether the store took it.
    pub fn upsert_bundle_at(&mut self, bundle: &Bundle, now: i128) -> (stored: bool)
        ensures
            (final(self).storage@, stored) == after_upsert(
                old(self).storage@,
                old(self).storage.capacity as nat,
                bundle@,
                now as int,
            ),
            final(self).node_id == old(self).node_id,
            final(self).storage.capacity == old(self).storage.capacity,
    {
        let present = self.storage.get_bundle(bundle.id).is_some();
        proof {
            lemma_lookup_some_iff_contains(self.storage@, bundle.id);
        }
        if present {
            self.storage.update_bundle(bundle)
        } else {
            self.storage.save_bundle_at(bundle, now)
        }
    }

    /// Upserts `bundle` at the time the clock reads.
    pub fn upsert_bundle(&mut self, bundle: &Bundle) -> (stored: bool)
        ensures
            exists|secs: i64, nanos: u32|
                clock_reading(secs, nanos) && (final(self).storage@, stored) == #[trigger] after_upsert(
                    old(self).storage@,
                    old(self).storage.capacity as nat,
                    bundle@,
                    instant(secs, nanos),
                ),
            final(self).node_id == old(self).node_id,
            final(self).storage.capacity == old(self).storage.capacity,
    {
        let (secs, nanos) = unix_now();
        let now = instant_of(secs, nanos);
        self.upsert_bundle_at(bundle, now)
    }

    /// Every stored bundle, in order.
    pub fn all(&self) -> (r: Vec<Bundle>)
        ensures
            views(r@) == self.storage@,
    {
        self.storage.get_all_bundles()
    }

    /// Whether an acknowledgement of the data bundle `data_bundle_id` is stored.
    pub fn has_ack_for_data_bundle(&self, data_bundle_id: u128) -> (r: bool)
        ensures
            r == has_ack_for(self.storage@, data_bundle_id),
    {
        let all = self.storage.get_all_bundles();
        let mut i: usize = 0;
        while i < all.len()
            invariant
                i <= all.len(),
                views(all@) == self.storage@,
                forall|j: int|
                    0 <= j < i ==> (#[trigger] self.storage@[j]).kind != (KindView::Ack {
                        ack_bundle_id: data_bundle_id,
                    }),
            decreases all.len() - i,
        {
            let hit = match &all[i].kind {
                BundleKind::Ack { ack_bundle_id } => *ack_bundle_id == data_bundle_id,
                _ => false,
            };
            if hit {
                assert(self.storage@[i as int] == all@[i as int]@);
                return true;
            }
            i = i + 1;
        }
        false
    }

    /// Handles an acknowledgement received at time `now`: the acknowledged
    /// data bundle is marked delivered and deleted, then the acknowledgement
    /// is kept once. Returns `false` where it was known already (or refused).
    pub fn handle_incoming_ack_at(&mut self, ack: &Bundle, now: i128) -> (fresh: bool)
        ensures
            (final(self).storage@, fresh) == after_incoming_ack(
                old(self).storage@,
                old(self).storage.capacity as nat,
                ack@,
                now as int,
            ),
            final(self).node_id == old(self).node_id,
            final(self).storage.capacity == old(self).storage.capacity,
    {
        let data_id = match &ack.kind {
            BundleKind::Ack { ack_bundle_id } => *ack_bundle_id,
            _ => {
                return false;
            },
        };
        let ghost s = self.storage@;
        match self.storage.get_bundle(data_id) {
            Some(mut data_bundle) => {
                proof {
                    lemma_lookup_some_iff_contains(s, data_id);
                }
                data_bundle.shipment_status = MsgStatus::Delivered;
                let _ = self.storage.update_bundle(&data_bundle);
                proof {
                    if self.storage@ != s {
                        let i = first_index(s, data_id)->0;
                        crate::seqs::lemma_filter_update_dropped(s, other_than(data_id), i, data_bundle@);
                    }
                }
                let _ = self.storage.delete_bundle(data_id);
            },
            None => {
                proof {
                    lemma_lookup_some_iff_contains(s, data_id);
                    assert(s.filter(other_than(data_id)) =~= s) by {
                        crate::seqs::lemma_filter_all(s, other_than(data_id));
                    }
                }
            },
        }
        if self.has_ack_for_data_bundle(data_id) || self.storage.get_bundle(ack.id).is_some() {
            proof {
                lemma_lookup_some_iff_contains(self.storage@, ack.id);
            }
            return false;
        }
        proof {
            lemma_lookup_some_iff_contains(self.storage@, ack.id);
        }
        self.storage.save_bundle_at(ack, now)
    }

    /// Handles an acknowledgement at the time the clock reads.
    pub fn handle_incoming_ack(&mut self, ack: &Bundle) -> (fresh: bool)
        ensures
            exists|secs: i64, nanos: u32|
                clock_reading(secs, nanos) && (final(self).storage@, fresh) == #[trigger] after_incoming_ack(
                    old(self).storage@,
                    old(self).storage.capacity as nat,
                    ack@,
                    instant(secs, nanos),
                ),
            final(self).node_id == old(self).node_id,
            final(self).storage.capacity == old(self).storage.capacity,
    {
        let (secs, nanos) = unix_now();
        let now = instant_of(secs, nanos);
        self.handle_incoming_ack_at(ack, now)
    }

    /// The ids of every stored bundle, in order: what the node answers a
    /// peer asking for its summary vector.
    pub fn summary_ids(&self) -> (r: Vec<u128>)
        ensures
            r@ == self.storage@.map_values(crate::storage::id_of()),
    {
        let all = self.storage.get_all_bundles();
        let mut ids: Vec<u128> = Vec::new();
        let mut i: usize = 0;
        while i < all.len()
            invariant
                i <= all.len(),
                views(all@) == self.storage@,
                ids@ == self.storage@.take(i as int).map_values(crate::storage::id_of()),
            decreases all.len() - i,
        {
            ids.push(all[i].id);
            assert(self.storage@.take(i + 1) =~= self.storage@.take(i as int).push(all@[i as int]@));
            assert(ids@ =~= self.storage@.take(i + 1).map_values(crate::storage::id_of()));
            i = i + 1;
        }
        assert(self.storage@.take(all.len() as int) =~= self.storage@);
        ids
    }

    /// Whether a bundle with id `bundle_id` is stored.
    pub fn has_bundle(&self, bundle_id: u128) -> (r: bool)
        ensures
            r == contains_id(self.storage@, bundle_id),
    {
        proof {
            lemma_lookup_some_iff_contains(self.storage@, bundle_id);
        }
        self.storage.get_bundle(bundle_id).is_some()
    }
}

} // verus!
