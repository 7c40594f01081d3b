//! The bundles a node holds: duplicate detection, capacity, expiry and
//! deletion. Reading and writing the store's file is left to the caller; the
//! operations here are what happens to the bundles in between.
use vstd::prelude::*;
use vstd::string::*;

use crate::clock::{clock_reading, instant, instant_of, unix_now};
use crate::model::{expired_at, Bundle, BundleView, KindView};

verus! {

/// Why the store refused or failed an operation.
pub enum StorageError {
    /// No bundle with the requested id exists in the store.
    NotFound(String),
    /// A bundle with this id already exists in the store.
    AlreadyExists(String),
    /// The store is full and cannot accept new bundles.
    StorageFull(String),
    /// A record could not be serialized or deserialized.
    SerializationError(String),
}

/// The text of a storage error.
pub open spec fn error_text(e: StorageError) -> Seq<char> {
    match e {
        StorageError::NotFound(id) => "Bundle with id "@ + id@ + " not found"@,
        StorageError::AlreadyExists(id) => "Bundle with id "@ + id@ + " already exists"@,
        StorageError::StorageFull(id) => "Storage full for bundle with id "@ + id@,
        StorageError::SerializationError(id) => "Serialization error for bundle with id "@ + id@
            + " (error in serialization or deserialization)"@,
    }
}

impl StorageError {
    /// The human-readable message of the error.
    pub fn message(&self) -> (m: String)
        ensures
            m@ == error_text(*self),
    {
        match self {
            StorageError::NotFound(id) => {
                let mut m = String::from_str("Bundle with id ");
                m.append(id.as_str());
                m.append(" not found");
                m
            },
            StorageError::AlreadyExists(id) => {
                let mut m = String::from_str("Bundle with id ");
                m.append(id.as_str());
                m.append(" already exists");
                m
            },
            StorageError::StorageFull(id) => {
                let mut m = String::from_str("Storage full for bundle with id ");
                m.append(id.as_str());
                m
            },
            StorageError::SerializationError(id) => {
                let mut m = String::from_str("Serialization error for bundle with id ");
                m.append(id.as_str());
                m.append(" (error in serialization or deserialization)");
                m
            },
        }
    }
}

/// A path that starts at the root.
pub open spec fn is_absolute(p: Seq<char>) -> bool {
    p.len() > 0 && p[0] == '/'
}

/// `rel` taken from `base`, as a Unix path is joined onto another: an
/// absolute `rel` stands as it is, an empty `base` gives `rel`, and
/// otherwise the two are put together with one separator between them.
pub open spec fn path_join(base: Seq<char>, rel: Seq<char>) -> Seq<char> {
    if is_absolute(rel) || base.len() == 0 {
        rel
    } else if base.last() == '/' {
        base + rel
    } else {
        base + seq!['/'] + rel
    }
}

/// `directory` taken from `base` (see `path_join`).
pub fn resolve_dir(base: &str, directory: &str) -> (r: String)
    ensures
        r@ == path_join(base@, directory@),
{
    proof {
        reveal_strlit("/");
    }
    let dir_len = directory.unicode_len();
    if dir_len > 0 && directory.get_char(0) == '/' {
        return String::from_str(directory);
    }
    let base_len = base.unicode_len();
    if base_len == 0 {
        return String::from_str(directory);
    }
    let mut r = String::from_str(base);
    if base.get_char(base_len - 1) != '/' {
        r.append("/");
    }
    r.append(directory);
    r
}

/// The models of a sequence of bundles.
pub open spec fn views(v: Seq<Bundle>) -> Seq<BundleView> {
    v.map_values(|b: Bundle| b@)
}

/// Some stored bundle has id `id`.
pub open spec fn contains_id(s: Seq<BundleView>, id: u128) -> bool {
    exists|i: int| 0 <= i < s.len() && (#[trigger] s[i]).id == id
}

/// `i` is the position of the first stored bundle with id `id`.
pub open spec fn is_first_with_id(s: Seq<BundleView>, id: u128, i: int) -> bool {
    &&& 0 <= i < s.len()
    &&& s[i].id == id
    &&& forall|j: int| 0 <= j < i ==> (#[trigger] s[j]).id != id
}

/// The position of the first stored bundle with id `id`, if any.
pub open spec fn first_index(s: Seq<BundleView>, id: u128) -> Option<int> {
    if exists|i: int| is_first_with_id(s, id, i) {
        Some(choose|i: int| is_first_with_id(s, id, i))
    } else {
        None
    }
}

/// The first stored bundle with id `id`, if any.
pub open spec fn lookup(s: Seq<BundleView>, id: u128) -> Option<BundleView> {
    match first_index(s, id) {
        Some(i) => Some(s[i]),
        None => None,
    }
}

/// An acknowledgement of the data bundle `data_id` is stored.
pub open spec fn has_ack_for(s: Seq<BundleView>, data_id: u128) -> bool {
    exists|i: int| 0 <= i < s.len() && (#[trigger] s[i]).kind == (KindView::Ack { ack_bundle_id: data_id })
}

/// Kept by expiry cleanup at time `now`.
pub open spec fn unexpired_at(now: int) -> spec_fn(BundleView) -> bool {
    |b: BundleView| !expired_at(b, now)
}

/// Kept by the deletion of id `id`.
pub open spec fn other_than(id: u128) -> spec_fn(BundleView) -> bool {
    |b: BundleView| b.id != id
}

/// Created by the node `node`.
pub open spec fn from_node(node: u128) -> spec_fn(BundleView) -> bool {
    |b: BundleView| b.source.id == node
}

/// The id of a bundle.
pub open spec fn id_of() -> spec_fn(BundleView) -> u128 {
    |b: BundleView| b.id
}

/// The store after dropping what has expired at time `now`.
pub open spec fn cleanup(s: Seq<BundleView>, now: int) -> Seq<BundleView> {
    s.filter(unexpired_at(now))
}

/// The store after deleting every bundle with id `id`.
pub open spec fn without_id(s: Seq<BundleView>, id: u128) -> Seq<BundleView> {
    s.filter(other_than(id))
}

/// A store `s` refuses `b`: a data bundle whose acknowledgement is stored
/// (it is not brought back), a full store, or an id already stored.
pub open spec fn save_refused(s: Seq<BundleView>, capacity: nat, b: BundleView) -> bool {
    ||| (b.kind is Data && has_ack_for(s, b.id))
    ||| s.len() >= capacity
    ||| contains_id(s, b.id)
}

/// Saving `b` at time `now`: expired bundles are dropped first, then `b` is
/// appended unless refused. The flag says whether it was appended.
pub open spec fn after_save(s: Seq<BundleView>, capacity: nat, b: BundleView, now: int) -> (
    Seq<BundleView>,
    bool,
) {
    let c = cleanup(s, now);
    if save_refused(c, capacity, b) {
        (c, false)
    } else {
        (c.push(b), true)
    }
}

/// Updating: a data bundle whose acknowledgement is stored is left alone;
/// otherwise the first bundle with `b`'s id is replaced by `b`, if there is one.
pub open spec fn after_update(s: Seq<BundleView>, b: BundleView) -> (Seq<BundleView>, bool) {
    if b.kind is Data && has_ack_for(s, b.id) {
        (s, false)
    } else {
        match first_index(s, b.id) {
            Some(i) => (s.update(i, b), true),
            None => (s, false),
        }
    }
}

/// Saving an acknowledgement unless one for the same data bundle is stored
/// or the store is full; anything but an acknowledgement is refused.
pub open spec fn after_save_ack(s: Seq<BundleView>, capacity: nat, ack: BundleView) -> (
    Seq<BundleView>,
    bool,
) {
    match ack.kind {
        KindView::Ack { ack_bundle_id } => if has_ack_for(s, ack_bundle_id) || s.len() >= capacity {
            (s, false)
        } else {
            (s.push(ack), true)
        },
        _ => (s, false),
    }
}

/// The ids of the bundles created by `node`, in store order.
pub open spec fn ids_from(s: Seq<BundleView>, node: u128) -> Seq<u128> {
    s.filter(from_node(node)).map_values(id_of())
}

pub proof fn lemma_views_push(v: Seq<Bundle>, b: Bundle)
    ensures
        views(v.push(b)) == views(v).push(b@),
{
    assert(views(v.push(b)) =~= views(v).push(b@));
}

pub proof fn lemma_views_update(v: Seq<Bundle>, i: int, b: Bundle)
    requires
        0 <= i < v.len(),
    ensures
        views(v.update(i, b)) == views(v).update(i, b@),
{
    assert(views(v.update(i, b)) =~= views(v).update(i, b@));
}

/// At most one position is the first with a given id.
pub proof fn lemma_first_unique(s: Seq<BundleView>, id: u128, i: int, k: int)
    requires
        is_first_with_id(s, id, i),
        is_first_with_id(s, id, k),
    ensures
        i == k,
{
    if i < k {
        assert(s[i].id != id);
    } else if k < i {
        assert(s[k].id != id);
    }
}

/// A first occurrence exists at or before any occurrence.
pub proof fn lemma_first_exists(s: Seq<BundleView>, id: u128, i: int)
    requires
        0 <= i < s.len(),
        s[i].id == id,
    ensures
        exists|k: int| is_first_with_id(s, id, k),
    decreases i,
{
    if exists|j: int| 0 <= j < i && s[j].id == id {
        let j = choose|j: int| 0 <= j < i && s[j].id == id;
        lemma_first_exists(s, id, j);
    } else {
        assert(is_first_with_id(s, id, i));
    }
}

/// `lookup` finds a bundle exactly when the id is stored.
pub proof fn lemma_lookup_some_iff_contains(s: Seq<BundleView>, id: u128)
    ensures
        lookup(s, id) is Some <==> contains_id(s, id),
        first_index(s, id) is Some <==> contains_id(s, id),
        first_index(s, id) matches Some(i) ==> is_first_with_id(s, id, i),
{
    if contains_id(s, id) {
        let i = choose|i: int| 0 <= i < s.len() && s[i].id == id;
        lemma_first_exists(s, id, i);
    }
}

/// The position `i` is the first with `id`, so `first_index` names it.
pub proof fn lemma_first_index_is(s: Seq<BundleView>, id: u128, i: int)
    requires
        is_first_with_id(s, id, i),
    ensures
        first_index(s, id) == Some(i),
        lookup(s, id) == Some(s[i]),
{
    let k = choose|k: int| is_first_with_id(s, id, k);
    lemma_first_unique(s, id, i, k);
}

/// The bundles a node holds, with the capacity it was given.
pub struct StorageLayer {
    pub storage_dir: String,
    pub bundles: Vec<Bundle>,
    /// Maximum number of bundles this node accepts.
    pub capacity: usize,
}

impl View for StorageLayer {
    type V = Seq<BundleView>;

    /// The stored bundles, in order.
    open spec fn view(&self) -> Seq<BundleView> {
        views(self.bundles@)
    }
}

/// A copy of a sequence of bundles.
pub fn clone_bundles(v: &Vec<Bundle>) -> (r: Vec<Bundle>)
    ensures
        views(r@) == views(v@),
{
    let mut out: Vec<Bundle> = Vec::new();
    let mut i: usize = 0;
    while i < v.len()
        invariant
            i <= v.len(),
            views(out@) == views(v@).take(i as int),
        decreases v.len() - i,
    {
        proof {
            lemma_views_push(out@, v@[i as int]);
            assert(views(v@).take(i + 1) =~= views(v@).take(i as int).push(v@[i as int]@));
        }
        out.push(v[i].clone());
        proof {
            lemma_views_push(out@.drop_last(), out@.last());
            assert(out@.drop_last().push(out@.last()) =~= out@);
        }
        i = i + 1;
    }
    assert(views(v@).take(v.len() as int) =~= views(v@));
    out
}

impl Clone for StorageLayer {
    fn clone(&self) -> (res: Self)
        ensures
            res@ == self@,
            res.capacity == self.capacity,
            res.storage_dir@ == self.storage_dir@,
    {
        StorageLayer {
            storage_dir: self.storage_dir.clone(),
            bundles: clone_bundles(&self.bundles),
            capacity: self.capacity,
        }
    }
}

impl StorageLayer {
    /// An empty store holding at most `capacity` bundles, in `directory`
    /// resolved against `base_dir` (the directory relative store paths are
    /// taken from).
    pub fn new(directory: String, capacity: usize, base_dir: String) -> (st: Self)
        ensures
            st@ == Seq::<BundleView>::empty(),
            st.capacity == capacity,
            st.storage_dir@ == path_join(base_dir@, directory@),
    {
        let storage_dir = resolve_dir(base_dir.as_str(), directory.as_str());
        let st = StorageLayer { storage_dir, bundles: Vec::new(), capacity };
        assert(st@ =~= Seq::<BundleView>::empty());
        st
    }

    /// Replaces the held bundles by those read back from the store's file.
    pub fn refresh(&mut self, loaded: Vec<Bundle>)
        ensures
            final(self)@ == views(loaded@),
            final(self).capacity == old(self).capacity,
            final(self).storage_dir@ == old(self).storage_dir@,
    {
        self.bundles = loaded;
    }

    /// Whether an acknowledgement of the data bundle `data_id` is stored.
    fn has_ack_for_data_id(&self, data_id: u128) -> (r: bool)
        ensures
            r == has_ack_for(self@, data_id),
    {
        let mut i: usize = 0;
        while i < self.bundles.len()
            invariant
                i <= self.bundles.len(),
                forall|j: int|
                    0 <= j < i ==> (#[trigger] self@[j]).kind != (KindView::Ack {
                        ack_bundle_id: data_id,
                    }),
            decreases self.bundles.len() - i,
        {
            let hit = match &self.bundles[i].kind {
                crate::model::BundleKind::Ack { ack_bundle_id } => *ack_bundle_id == data_id,
                _ => false,
            };
            if hit {
                assert(self@[i as int].kind == (KindView::Ack { ack_bundle_id: data_id }));
                return true;
            }
            i = i + 1;
        }
        false
    }

    /// Position of the first bundle with id `id`.
    fn position_of(&self, id: u128) -> (r: Option<usize>)
        ensures
            match r {
                Some(i) => first_index(self@, id) == Some(i as int) && i < self.bundles@.len(),
                None => first_index(self@, id) is None && !contains_id(self@, id),
            },
    {
        let mut i: usize = 0;
        while i < self.bundles.len()
            invariant
                i <= self.bundles.len(),
                forall|j: int| 0 <= j < i ==> (#[trigger] self@[j]).id != id,
            decreases self.bundles.len() - i,
        {
            if self.bundles[i].id == id {
                proof {
                    assert(is_first_with_id(self@, id, i as int));
                    lemma_first_index_is(self@, id, i as int);
                }
                return Some(i);
            }
            i = i + 1;
        }
        proof {
            lemma_lookup_some_iff_contains(self@, id);
        }
        None
    }

    /// Drops every bundle that has expired at time `now`; returns how many
    /// were dropped.
    pub fn cleanup_expired_bundles_at(&mut self, now: i128) -> (removed: usize)
        ensures
            final(self)@ == cleanup(old(self)@, now as int),
            removed == old(self)@.len() - final(self)@.len(),
            final(self).capacity == old(self).capacity,
            final(self).storage_dir@ == old(self).storage_dir@,
    {
        let ghost s = self@;
        let mut kept: Vec<Bundle> = Vec::new();
        let mut removed: usize = 0;
        let mut i: usize = 0;
        while i < self.bundles.len()
            invariant
                i <= self.bundles.len(),
                self@ == s,
                views(kept@) == s.take(i as int).filter(unexpired_at(now as int)),
                kept@.len() + removed == i,
            decreases self.bundles.len() - i,
        {
            proof {
                crate::seqs::lemma_filter_take_step(s, unexpired_at(now as int), i as int);
            }
            if !self.bundles[i].is_expired_at(now) {
                proof {
                    lemma_views_push(kept@, self.bundles@[i as int]);
                }
                kept.push(self.bundles[i].clone());
                proof {
                    lemma_views_push(kept@.drop_last(), kept@.last());
                    assert(kept@.drop_last().push(kept@.last()) =~= kept@);
                }
            } else {
                removed = removed + 1;
            }
            i = i + 1;
        }
        assert(s.take(s.len() as int) =~= s);
        self.bundles = kept;
        removed
    }

    /// Drops every bundle that has expired by the clock; returns how many
    /// were dropped.
    pub fn cleanup_expired_bundles(&mut self) -> (removed: usize)
        ensures
            exists|secs: i64, nanos: u32|
                clock_reading(secs, nanos) && final(self)@ == #[trigger] cleanup(old(self)@, instant(secs, nanos)),
            removed == old(self)@.len() - final(self)@.len(),
            final(self).capacity == old(self).capacity,
            final(self).storage_dir@ == old(self).storage_dir@,
    {
        let (secs, nanos) = unix_now();
        let now = instant_of(secs, nanos);
        self.cleanup_expired_bundles_at(now)
    }

    /// Saves `bundle` at time `now`: drops what has expired, then appends
    /// the bundle unless it is a data bundle already acknowledged, the store
    /// is full, or its id is already stored. Says whether it was appended.
    pub fn save_bundle_at(&mut self, bundle: &Bundle, now: i128) -> (saved: bool)
        ensures
            (final(self)@, saved) == after_save(old(self)@, old(self).capacity as nat, bundle@, now as int),
            final(self).capacity == old(self).capacity,
            final(self).storage_dir@ == old(self).storage_dir@,
    {
        self.cleanup_expired_bundles_at(now);
        if bundle.kind.is_data() && self.has_ack_for_data_id(bundle.id) {
            return false;
        }
        if self.bundles.len() >= self.capacity {
            return false;
        }
        if self.position_of(bundle.id).is_some() {
            proof {
                lemma_lookup_some_iff_contains(self@, bundle.id);
            }
            return false;
        }
        proof {
            lemma_views_push(self.bundles@, *bundle);
        }
        self.bundles.push(bundle.clone());
        proof {
            lemma_views_push(self.bundles@.drop_last(), self.bundles@.last());
            assert(self.bundles@.drop_last().push(self.bundles@.last()) =~= self.bundles@);
        }
        true
    }

    /// Saves `bundle` as `save_bundle_at` does, at the time the clock reads.
    pub fn save_bundle(&mut self, bundle: &Bundle) -> (saved: bool)
        ensures
            exists|secs: i64, nanos: u32|
                clock_reading(secs, nanos) && (final(self)@, saved) == #[trigger] after_save(
                    old(self)@,
                    old(self).capacity as nat,
                    bundle@,
                    instant(secs, nanos),
                ),
            final(self).capacity == old(self).capacity,
            final(self).storage_dir@ == old(self).storage_dir@,
    {
        let (secs, nanos) = unix_now();
        let now = instant_of(secs, nanos);
        self.save_bundle_at(bundle, now)
    }

    /// The first stored bundle with id `bundle_id`, if any.
    pub fn get_bundle(&self, bundle_id: u128) -> (r: Option<Bundle>)
        ensures
            match r {
                Some(b) => lookup(self@, bundle_id) == Some(b@),
                None => lookup(self@, bundle_id) is None,
            },
    {
        match self.position_of(bundle_id) {
            Some(i) => Some(self.bundles[i].clone()),
            None => None,
        }
    }

    /// A copy of every stored bundle, in order.
    pub fn get_all_bundles(&self) -> (r: Vec<Bundle>)
        ensures
            views(r@) == self@,
    {
        clone_bundles(&self.bundles)
    }

    /// The ids of the bundles created by `node_id`, in store order.
    pub fn get_bundles_by_node(&self, node_id: u128) -> (r: Vec<u128>)
        ensures
            r@ == ids_from(self@, node_id),
    {
        let ghost s = self@;
        let mut out: Vec<u128> = Vec::new();
        let mut i: usize = 0;
        while i < self.bundles.len()
            invariant
                i <= self.bundles.len(),
                self@ == s,
                out@ == s.take(i as int).filter(from_node(node_id)).map_values(id_of()),
            decreases self.bundles.len() - i,
        {
            proof {
                crate::seqs::lemma_filter_take_step(s, from_node(node_id), i as int);
            }
            if self.bundles[i].source.id == node_id {
                let ghost before = out@;
                out.push(self.bundles[i].id);
                assert(s.take(i as int).filter(from_node(node_id)).push(s[i as int]).map_values(
                    id_of(),
                ) =~= before.push(s[i as int].id));
            }
            i = i + 1;
        }
        assert(s.take(s.len() as int) =~= s);
        out
    }

    /// Deletes every bundle with id `bundle_id`; says whether there was one.
    pub fn delete_bundle(&mut self, bundle_id: u128) -> (deleted: bool)
        ensures
            final(self)@ == without_id(old(self)@, bundle_id),
            deleted == contains_id(old(self)@, bundle_id),
            final(self).capacity == old(self).capacity,
            final(self).storage_dir@ == old(self).storage_dir@,
    {
        let ghost s = self@;
        let mut kept: Vec<Bundle> = Vec::new();
        let mut deleted = false;
        let mut i: usize = 0;
        while i < self.bundles.len()
            invariant
                i <= self.bundles.len(),
                self@ == s,
                views(kept@) == s.take(i as int).filter(other_than(bundle_id)),
                deleted == exists|j: int| 0 <= j < i && (#[trigger] s[j]).id == bundle_id,
            decreases self.bundles.len() - i,
        {
            proof {
                crate::seqs::lemma_filter_take_step(s, other_than(bundle_id), i as int);
            }
            if self.bundles[i].id != bundle_id {
                proof {
                    lemma_views_push(kept@, self.bundles@[i as int]);
                }
                kept.push(self.bundles[i].clone());
                proof {
                    lemma_views_push(kept@.drop_last(), kept@.last());
                    assert(kept@.drop_last().push(kept@.last()) =~= kept@);
                }
            } else {
                deleted = true;
            }
            i = i + 1;
        }
        assert(s.take(s.len() as int) =~= s);
        self.bundles = kept;
        deleted
    }

    /// Replaces the first stored bundle with `bundle`'s id by `bundle`,
    /// unless it is a data bundle already acknowledged. Says whether one was
    /// replaced.
    pub fn update_bundle(&mut self, bundle: &Bundle) -> (updated: bool)
        ensures
            (final(self)@, updated) == after_update(old(self)@, bundle@),
            final(self).capacity == old(self).capacity,
            final(self).storage_dir@ == old(self).storage_dir@,
    {
        if bundle.kind.is_data() && self.has_ack_for_data_id(bundle.id) {
            return false;
        }
        match self.position_of(bundle.id) {
            Some(i) => {
                let c = bundle.clone();
                proof {
                    lemma_views_update(self.bundles@, i as int, c);
                }
                self.bundles.set(i, c);
                true
            },
            None => false,
        }
    }

    /// Saves an acknowledgement unless one for the same data bundle is
    /// already stored or the store is full; anything other than an
    /// acknowledgement is refused. Says whether it was saved.
    pub fn save_ack_if_new_for_data(&mut self, ack: &Bundle) -> (saved: bool)
        ensures
            (final(self)@, saved) == after_save_ack(old(self)@, old(self).capacity as nat, ack@),
            final(self).capacity == old(self).capacity,
            final(self).storage_dir@ == old(self).storage_dir@,
    {
        let data_id = match &ack.kind {
            crate::model::BundleKind::Ack { ack_bundle_id } => *ack_bundle_id,
            _ => {
                return false;
            },
        };
        if self.has_ack_for_data_id(data_id) {
            return false;
        }
        if self.bundles.len() >= self.capacity {
            return false;
        }
        let c = ack.clone();
        proof {
            lemma_views_push(self.bundles@, c);
        }
        self.bundles.push(c);
        true
    }
}

} // verus!
