use vstd::prelude::*;
use vstd::string::*;

use crate::clock::{clock_reading, instant, instant_of, unix_now};
use crate::ids::{ack_id_for, ack_id_of, name_uuid, node_id, random_id, uuid_version};

verus! {

/// Lifecycle of a bundle.
#[derive(Debug, Clone, Copy, PartialEq, Eq, Structural)]
pub enum MsgStatus {
    /// Created but not yet sent.
    Pending,
    /// On its way to the destination.
    InTransit,
    /// Delivered (for a data bundle: its ack was received).
    Delivered,
    /// Its time to live was exceeded.
    Expired,
}

/// What a bundle carries.
pub enum BundleKind {
    Data { msg: String },
    Ack { ack_bundle_id: u128 },
    RequestSV { from: u128 },
    SummaryVector { ids: Vec<u128> },
}

/// Mathematical model of a `BundleKind`.
pub enum KindView {
    Data { msg: Seq<char> },
    Ack { ack_bundle_id: u128 },
    RequestSV { from: u128 },
    SummaryVector { ids: Seq<u128> },
}

impl View for BundleKind {
    type V = KindView;

    open spec fn view(&self) -> KindView {
        match self {
            BundleKind::Data { msg } => KindView::Data { msg: msg@ },
            BundleKind::Ack { ack_bundle_id } => KindView::Ack { ack_bundle_id: *ack_bundle_id },
            BundleKind::RequestSV { from } => KindView::RequestSV { from: *from },
            BundleKind::SummaryVector { ids } => KindView::SummaryVector { ids: ids@ },
        }
    }
}

impl Clone for BundleKind {
    fn clone(&self) -> (res: Self)
        ensures
            res@ == self@,
    {
        match self {
            BundleKind::Data { msg } => BundleKind::Data { msg: msg.clone() },
            BundleKind::Ack { ack_bundle_id } => BundleKind::Ack { ack_bundle_id: *ack_bundle_id },
            BundleKind::RequestSV { from } => BundleKind::RequestSV { from: *from },
            BundleKind::SummaryVector { ids } => {
                let c = ids.clone();
                assert(c@ =~= ids@);
                BundleKind::SummaryVector { ids: c }
            },
        }
    }
}

/// A node of the network.
pub struct Node {
    pub id: u128,
    pub name: String,
    pub address: String,
    pub port: u16,
    pub peers: Vec<u128>,
}

/// Mathematical model of a `Node`.
pub struct NodeView {
    pub id: u128,
    pub name: Seq<char>,
    pub address: Seq<char>,
    pub port: u16,
    pub peers: Seq<u128>,
}

impl View for Node {
    type V = NodeView;

    open spec fn view(&self) -> NodeView {
        NodeView {
            id: self.id,
            name: self.name@,
            address: self.address@,
            port: self.port,
            peers: self.peers@,
        }
    }
}

impl Clone for Node {
    fn clone(&self) -> (res: Self)
        ensures
            res@ == self@,
    {
        let peers = self.peers.clone();
        assert(peers@ =~= self.peers@);
        Node {
            id: self.id,
            name: self.name.clone(),
            address: self.address.clone(),
            port: self.port,
            peers,
        }
    }
}

/// A bundle: the unit that is stored, carried and forwarded.
pub struct Bundle {
    pub id: u128,
    pub source: Node,
    pub destination: Node,
    /// Creation time: whole seconds since the Unix epoch,
    pub timestamp: i64,
    /// and nanoseconds past that second.
    pub timestamp_nanos: u32,
    /// Time to live, in seconds.
    pub ttl: u64,
    pub kind: BundleKind,
    pub shipment_status: MsgStatus,
}

/// Mathematical model of a `Bundle`.
pub struct BundleView {
    pub id: u128,
    pub source: NodeView,
    pub destination: NodeView,
    pub timestamp: i64,
    pub timestamp_nanos: u32,
    pub ttl: u64,
    pub kind: KindView,
    pub shipment_status: MsgStatus,
}

impl View for Bundle {
    type V = BundleView;

    open spec fn view(&self) -> BundleView {
        BundleView {
            id: self.id,
            source: self.source@,
            destination: self.destination@,
            timestamp: self.timestamp,
            timestamp_nanos: self.timestamp_nanos,
            ttl: self.ttl,
            kind: self.kind@,
            shipment_status: self.shipment_status,
        }
    }
}

impl Clone for Bundle {
    fn clone(&self) -> (res: Self)
        ensures
            res@ == self@,
    {
        Bundle {
            id: self.id,
            source: self.source.clone(),
            destination: self.destination.clone(),
            timestamp: self.timestamp,
            timestamp_nanos: self.timestamp_nanos,
            ttl: self.ttl,
            kind: self.kind.clone(),
            shipment_status: self.shipment_status,
        }
    }
}


impl BundleKind {
    /// Whether this is a data bundle.
    pub fn is_data(&self) -> (r: bool)
        ensures
            r == (self@ is Data),
    {
        match self {
            BundleKind::Data { .. } => true,
            _ => false,
        }
    }
}

/// A bundle has exceeded its time to live at instant `now` (nanoseconds
/// since the Unix epoch) once its age, in whole seconds, is more than `ttl`:
/// once at least `ttl + 1` seconds have passed since its creation.
pub open spec fn expired_at(b: BundleView, now: int) -> bool {
    now - instant(b.timestamp, b.timestamp_nanos) >= (b.ttl + 1) * 1_000_000_000
}

/// `ack` is the acknowledgement of `delivered`: source and destination
/// swapped, the same time to live, pending, naming the delivered bundle.
pub open spec fn is_ack_of(ack: BundleView, delivered: BundleView) -> bool {
    &&& ack.source == delivered.destination
    &&& ack.destination == delivered.source
    &&& ack.ttl == delivered.ttl
    &&& ack.kind == (KindView::Ack { ack_bundle_id: delivered.id })
    &&& ack.shipment_status == MsgStatus::Pending
}

/// The acknowledgement of `delivered` with id `id`, created `timestamp`
/// seconds and `timestamp_nanos` nanoseconds after the Unix epoch.
pub open spec fn ack_view(delivered: BundleView, id: u128, timestamp: i64, timestamp_nanos: u32) -> BundleView {
    BundleView {
        id,
        source: delivered.destination,
        destination: delivered.source,
        timestamp,
        timestamp_nanos,
        ttl: delivered.ttl,
        kind: KindView::Ack { ack_bundle_id: delivered.id },
        shipment_status: MsgStatus::Pending,
    }
}

impl Bundle {
    /// A new pending bundle with id `id`, created `timestamp` seconds and
    /// `timestamp_nanos` nanoseconds after the Unix epoch.
    pub fn new_with(
        source: Node,
        destination: Node,
        kind: BundleKind,
        ttl: u64,
        id: u128,
        timestamp: i64,
        timestamp_nanos: u32,
    ) -> (b: Bundle)
        ensures
            b.id == id,
            b.source@ == source@,
            b.destination@ == destination@,
            b.kind@ == kind@,
            b.ttl == ttl,
            b.timestamp == timestamp,
            b.timestamp_nanos == timestamp_nanos,
            b.shipment_status == MsgStatus::Pending,
    {
        Bundle {
            id,
            source,
            destination,
            timestamp,
            timestamp_nanos,
            ttl,
            kind,
            shipment_status: MsgStatus::Pending,
        }
    }

    /// A new pending bundle with a fresh random id, stamped with the clock.
    pub fn new(source: Node, destination: Node, kind: BundleKind, ttl: u64) -> (b: Bundle)
        ensures
            b.source@ == source@,
            b.destination@ == destination@,
            b.kind@ == kind@,
            b.ttl == ttl,
            b.shipment_status == MsgStatus::Pending,
            uuid_version(b.id) == 4,
            clock_reading(b.timestamp, b.timestamp_nanos),
    {
        let id = random_id();
        let (timestamp, timestamp_nanos) = unix_now();
        Bundle::new_with(source, destination, kind, ttl, id, timestamp, timestamp_nanos)
    }

    /// Whether the bundle has exceeded its time to live at instant `now`
    /// (nanoseconds since the Unix epoch).
    pub fn is_expired_at(&self, now: i128) -> (r: bool)
        ensures
            r == expired_at(self@, now as int),
    {
        let created = instant_of(self.timestamp, self.timestamp_nanos);
        let limit: i128 = created + (self.ttl as i128 + 1) * 1_000_000_000;
        now >= limit
    }

    /// Whether the bundle has exceeded its time to live now, by the clock.
    pub fn is_expired(&self) -> (r: bool)
        ensures
            exists|secs: i64, nanos: u32|
                clock_reading(secs, nanos) && r == #[trigger] expired_at(self@, instant(secs, nanos)),
    {
        let (secs, nanos) = unix_now();
        self.is_expired_at(instant_of(secs, nanos))
    }

    /// The acknowledgement of a delivered data bundle, with id `id` and
    /// creation time `timestamp` seconds and `timestamp_nanos` nanoseconds.
    pub fn ack_with(delivered_bundle: &Bundle, id: u128, timestamp: i64, timestamp_nanos: u32) -> (ack: Bundle)
        ensures
            ack@ == ack_view(delivered_bundle@, id, timestamp, timestamp_nanos),
    {
        Bundle {
            id,
            source: delivered_bundle.destination.clone(),
            destination: delivered_bundle.source.clone(),
            timestamp,
            timestamp_nanos,
            ttl: delivered_bundle.ttl,
            kind: BundleKind::Ack { ack_bundle_id: delivered_bundle.id },
            shipment_status: MsgStatus::Pending,
        }
    }

    /// The acknowledgement of a delivered data bundle, stamped with the
    /// clock. Its id is derived from the delivered bundle's id, so every
    /// acknowledgement of one bundle has the same id.
    pub fn new_ack(delivered_bundle: &Bundle) -> (ack: Bundle)
        ensures
            is_ack_of(ack@, delivered_bundle@),
            ack.id == ack_id_of(delivered_bundle.id),
            clock_reading(ack.timestamp, ack.timestamp_nanos),
    {
        let id = ack_id_for(delivered_bundle.id);
        let (timestamp, timestamp_nanos) = unix_now();
        Bundle::ack_with(delivered_bundle, id, timestamp, timestamp_nanos)
    }
}

impl Node {
    /// A node named `name`, whose id is derived from the name.
    pub fn new(name: &str, address: &str, port: u16, peers: Vec<u128>) -> (n: Node)
        ensures
            n.id == name_uuid(name@),
            n.name@ == name@,
            n.address@ == address@,
            n.port == port,
            n.peers@ == peers@,
    {
        let id = node_id(name);
        Node { id, name: String::from_str(name), address: String::from_str(address), port, peers }
    }

    /// Adds `peer` to the known peers unless it is there already; says
    /// whether it was added.
    pub fn add_peer(&mut self, peer: u128) -> (added: bool)
        ensures
            added == !old(self).peers@.contains(peer),
            final(self).peers@ == (if added { old(self).peers@.push(peer) } else { old(self).peers@ }),
            final(self).id == old(self).id,
            final(self).name@ == old(self).name@,
            final(self).address@ == old(self).address@,
            final(self).port == old(self).port,
    {
        let mut i: usize = 0;
        while i < self.peers.len()
            invariant
                i <= self.peers.len(),
                self.peers@ == old(self).peers@,
                forall|j: int| 0 <= j < i ==> self.peers@[j] != peer,
            decreases self.peers.len() - i,
        {
            if self.peers[i] == peer {
                return false;
            }
            i = i + 1;
        }
        self.peers.push(peer);
        true
    }

    /// Removes every occurrence of `peer` from the known peers; says whether
    /// there was one.
    pub fn remove_peer(&mut self, peer: u128) -> (removed: bool)
        ensures
            removed == old(self).peers@.contains(peer),
            final(self).peers@ == old(self).peers@.filter(|p: u128| p != peer),
            final(self).id == old(self).id,
            final(self).name@ == old(self).name@,
            final(self).address@ == old(self).address@,
            final(self).port == old(self).port,
    {
        let ghost s = self.peers@;
        let mut kept: Vec<u128> = Vec::new();
        let mut removed = false;
        let mut i: usize = 0;
        while i < self.peers.len()
            invariant
                i <= self.peers.len(),
                self.peers@ == s,
                kept@ == s.take(i as int).filter(|p: u128| p != peer),
                removed == s.take(i as int).contains(peer),
            decreases self.peers.len() - i,
        {
            proof {
                crate::seqs::lemma_filter_take_step(s, |p: u128| p != peer, i as int);
                assert(s.take(i + 1) == s.take(i as int).push(s[i as int]));
                crate::seqs::lemma_push_contains(s.take(i as int), s[i as int], peer);
            }
            if self.peers[i] != peer {
                kept.push(self.peers[i]);
            } else {
                removed = true;
            }
            i = i + 1;
        }
        assert(s.take(s.len() as int) == s);
        self.peers = kept;
        removed
    }
}

/// Index of the first node called `name`, if any.
pub fn find_node(nodes: &[Node], name: &str) -> (r: Option<usize>)
    ensures
        match r {
            Some(i) => i < nodes@.len() && nodes@[i as int].name@ == name@ && forall|j: int|
                0 <= j < i ==> nodes@[j].name@ != name@,
            None => forall|j: int| 0 <= j < nodes@.len() ==> nodes@[j].name@ != name@,
        },
{
    let target = String::from_str(name);
    let mut i: usize = 0;
    while i < nodes.len()
        invariant
            i <= nodes@.len(),
            target@ == name@,
            forall|j: int| 0 <= j < i ==> nodes@[j].name@ != name@,
        decreases nodes.len() - i,
    {
        if nodes[i].name == target {
            return Some(i);
        }
        i = i + 1;
    }
    None
}

/// The id of the last node called `name`, if any: the id a table from names
/// to ids, filled in the order of `nodes`, would hold.
pub fn known_node_id(nodes: &[Node], name: &str) -> (r: Option<u128>)
    ensures
        match r {
            Some(id) => exists|i: int|
                0 <= i < nodes@.len() && nodes@[i].name@ == name@ && nodes@[i].id == id && forall|j: int|
                    i < j < nodes@.len() ==> nodes@[j].name@ != name@,
            None => forall|j: int| 0 <= j < nodes@.len() ==> nodes@[j].name@ != name@,
        },
{
    let target = String::from_str(name);
    let mut found: Option<u128> = None;
    let mut i: usize = 0;
    while i < nodes.len()
        invariant
            i <= nodes@.len(),
            target@ == name@,
            match found {
                Some(id) => exists|k: int|
                    0 <= k < i && nodes@[k].name@ == name@ && nodes@[k].id == id && forall|j: int|
                        k < j < i ==> nodes@[j].name@ != name@,
                None => forall|j: int| 0 <= j < i ==> nodes@[j].name@ != name@,
            },
        decreases nodes.len() - i,
    {
        if nodes[i].name == target {
            found = Some(nodes[i].id);
        }
        i = i + 1;
    }
    found
}

} // verus!
