//! Forwarding bundles to the connected peers that lack them (anti-entropy).
//!
//! The exchange with the registry and the peers is outside work; the
//! decisions are a state machine: each call of `Forwarder::step` takes what
//! the last action brought back and gives the next action to perform.
use vstd::prelude::*;

use crate::model::{Bundle, BundleView, Node, NodeView};
use crate::storage::{lemma_views_push, views};

verus! {

/// The bundles of `local` whose ids a peer's summary vector lacks.
pub open spec fn absent_from(peer_sv: Seq<u128>) -> spec_fn(BundleView) -> bool {
    |b: BundleView| !peer_sv.contains(b.id)
}

/// What a peer with summary vector `peer_sv` is missing of `local`, in order.
pub open spec fn missing_on_peer(local: Seq<BundleView>, peer_sv: Seq<u128>) -> Seq<BundleView> {
    local.filter(absent_from(peer_sv))
}

/// A node other than `me`.
pub open spec fn other_node(me: u128) -> spec_fn(NodeView) -> bool {
    |n: NodeView| n.id != me
}

/// The models of a sequence of nodes.
pub open spec fn node_views(v: Seq<Node>) -> Seq<NodeView> {
    v.map_values(|n: Node| n@)
}

/// Whether `ids` holds `id`.
pub fn contains_u128(ids: &[u128], id: u128) -> (r: bool)
    ensures
        r == ids@.contains(id),
{
    let mut i: usize = 0;
    while i < ids.len()
        invariant
            i <= ids.len(),
            forall|j: int| 0 <= j < i ==> ids@[j] != id,
        decreases ids.len() - i,
    {
        if ids[i] == id {
            assert(ids@[i as int] == id);
            return true;
        }
        i = i + 1;
    }
    false
}

/// The bundles of `local` whose ids `peer_sv` lacks, in order.
pub fn missing_bundles(local: &[Bundle], peer_sv: &[u128]) -> (r: Vec<Bundle>)
    ensures
        views(r@) == missing_on_peer(views(local@), peer_sv@),
{
    let ghost s = views(local@);
    let mut out: Vec<Bundle> = Vec::new();
    let mut i: usize = 0;
    while i < local.len()
        invariant
            i <= local@.len(),
            s == views(local@),
            views(out@) == s.take(i as int).filter(absent_from(peer_sv@)),
        decreases local.len() - i,
    {
        proof {
            crate::seqs::lemma_filter_take_step(s, absent_from(peer_sv@), i as int);
        }
        if !contains_u128(peer_sv, local[i].id) {
            let c = local[i].clone();
            proof {
                lemma_views_push(out@, c);
            }
            out.push(c);
        }
        i = i + 1;
    }
    assert(s.take(s.len() as int) =~= s);
    out
}

/// Where a forwarder stands.
#[derive(Debug, Clone, Copy, PartialEq, Eq, Structural)]
pub enum Phase {
    /// Not yet started.
    Start,
    /// Waiting for the registry's list of connected nodes.
    AwaitRegistry,
    /// Waiting for the current peer's summary vector.
    AwaitSummary,
    /// Waiting for the outcome of a send to the current peer.
    AwaitSend,
    /// Finished.
    Done,
}

/// What the caller performs next.
pub enum ForwardAction {
    /// Ask the registry which of these nodes are connected.
    QueryRegistry { requested: Vec<u128> },
    /// Ask `peer` for the ids of the bundles it holds.
    AskSummary { peer: Node },
    /// Send `bundle` to `peer`.
    Send { bundle: Bundle, peer: Node },
    /// Nothing more to do.
    Finished,
}

/// What the performed action brought back.
pub enum ForwardEvent {
    /// The connected nodes the registry reported.
    Connected { peers: Vec<Node> },
    /// The peer's summary vector (empty where it could not be had).
    Summary { ids: Vec<u128> },
    /// Whether the send went through.
    SendResult { delivered: bool },
}

/// Model of a `ForwardAction`.
pub enum ActionView {
    QueryRegistry { requested: Seq<u128> },
    AskSummary { peer: NodeView },
    Send { bundle: BundleView, peer: NodeView },
    Finished,
}

/// Model of a `ForwardEvent`.
pub enum EventView {
    Connected { peers: Seq<NodeView> },
    Summary { ids: Seq<u128> },
    SendResult { delivered: bool },
}

impl View for ForwardAction {
    type V = ActionView;

    open spec fn view(&self) -> ActionView {
        match self {
            ForwardAction::QueryRegistry { requested } => ActionView::QueryRegistry {
                requested: requested@,
            },
            ForwardAction::AskSummary { peer } => ActionView::AskSummary { peer: peer@ },
            ForwardAction::Send { bundle, peer } => ActionView::Send { bundle: bundle@, peer: peer@ },
            ForwardAction::Finished => ActionView::Finished,
        }
    }
}

impl View for ForwardEvent {
    type V = EventView;

    open spec fn view(&self) -> EventView {
        match self {
            ForwardEvent::Connected { peers } => EventView::Connected { peers: node_views(peers@) },
            ForwardEvent::Summary { ids } => EventView::Summary { ids: ids@ },
            ForwardEvent::SendResult { delivered } => EventView::SendResult { delivered: *delivered },
        }
    }
}

/// Some bundle of `candidates` has id `id`.
pub open spec fn is_candidate_id(candidates: Seq<BundleView>, id: u128) -> bool {
    exists|j: int| 0 <= j < candidates.len() && (#[trigger] candidates[j]).id == id
}

/// Model of a forwarder.
#[verifier::ext_equal]
pub struct ForwarderView {
    /// The forwarding node; never sent to.
    pub self_id: u128,
    /// The nodes asked of the registry.
    pub requested: Seq<u128>,
    /// The bundles offered to every peer.
    pub candidates: Seq<BundleView>,
    /// The connected peers, the forwarding node left out.
    pub peers: Seq<NodeView>,
    pub peer_index: int,
    /// The current peer's summary vector.
    pub summary: Seq<u128>,
    /// What the current peer is missing.
    pub queue: Seq<BundleView>,
    pub queue_index: int,
    pub phase: Phase,
    /// Some send was attempted.
    pub attempted: bool,
    /// Ids of the candidates some peer took, each once, in the order sent.
    pub sent_ids: Seq<u128>,
}

impl ForwarderView {
    /// What every forwarder satisfies.
    pub open spec fn wf(self) -> bool {
        &&& forall|i: int| 0 <= i < self.peers.len() ==> (#[trigger] self.peers[i]).id != self.self_id
        &&& (self.phase == Phase::AwaitSummary || self.phase == Phase::AwaitSend) ==> 0
            <= self.peer_index < self.peers.len()
        &&& self.phase == Phase::AwaitSend ==> {
            &&& 0 <= self.queue_index < self.queue.len()
            &&& self.queue == missing_on_peer(self.candidates, self.summary)
        }
        &&& self.sent_ids.no_duplicates()
        &&& forall|i: int|
            0 <= i < self.sent_ids.len() ==> is_candidate_id(self.candidates, #[trigger] self.sent_ids[i])
    }

    /// A forwarder about to start.
    pub open spec fn initial(self_id: u128, requested: Seq<u128>, candidates: Seq<BundleView>) -> Self {
        ForwarderView {
            self_id,
            requested,
            candidates,
            peers: Seq::empty(),
            peer_index: 0,
            summary: Seq::empty(),
            queue: Seq::empty(),
            queue_index: 0,
            phase: Phase::Start,
            attempted: false,
            sent_ids: Seq::empty(),
        }
    }
}

/// Moving on to the next peer, or finishing after the last.
pub open spec fn next_peer(v: ForwarderView) -> (ForwarderView, ActionView) {
    let k = v.peer_index + 1;
    if k < v.peers.len() {
        (ForwarderView { peer_index: k, phase: Phase::AwaitSummary, ..v }, ActionView::AskSummary { peer: v.peers[k] })
    } else {
        (ForwarderView { peer_index: k, phase: Phase::Done, ..v }, ActionView::Finished)
    }
}

/// The forwarder's transition: the state after an event and the next action.
/// An event that does not answer the last action ends the exchange.
pub open spec fn forward_step(v: ForwarderView, e: EventView) -> (ForwarderView, ActionView) {
    match e {
        EventView::Connected { peers } => if v.phase == Phase::AwaitRegistry {
            let ps = peers.filter(other_node(v.self_id));
            if ps.len() == 0 {
                (ForwarderView { peers: ps, phase: Phase::Done, ..v }, ActionView::Finished)
            } else {
                (
                    ForwarderView { peers: ps, peer_index: 0, phase: Phase::AwaitSummary, ..v },
                    ActionView::AskSummary { peer: ps[0] },
                )
            }
        } else {
            (ForwarderView { phase: Phase::Done, ..v }, ActionView::Finished)
        },
        EventView::Summary { ids } => if v.phase == Phase::AwaitSummary {
            let q = missing_on_peer(v.candidates, ids);
            let v1 = ForwarderView { summary: ids, queue: q, queue_index: 0, ..v };
            if q.len() == 0 {
                next_peer(v1)
            } else {
                (
                    ForwarderView { phase: Phase::AwaitSend, ..v1 },
                    ActionView::Send { bundle: q[0], peer: v.peers[v.peer_index] },
                )
            }
        } else {
            (ForwarderView { phase: Phase::Done, ..v }, ActionView::Finished)
        },
        EventView::SendResult { delivered } => if v.phase == Phase::AwaitSend {
            let b = v.queue[v.queue_index];
            let sent = if delivered && !v.sent_ids.contains(b.id) {
                v.sent_ids.push(b.id)
            } else {
                v.sent_ids
            };
            let k = v.queue_index + 1;
            let v1 = ForwarderView { attempted: true, sent_ids: sent, queue_index: k, ..v };
            if k < v.queue.len() {
                (v1, ActionView::Send { bundle: v.queue[k], peer: v.peers[v.peer_index] })
            } else {
                next_peer(v1)
            }
        } else {
            (ForwarderView { phase: Phase::Done, ..v }, ActionView::Finished)
        },
    }
}

/// The forwarding of a set of candidate bundles to connected peers.
pub struct Forwarder {
    self_id: u128,
    requested: Vec<u128>,
    candidates: Vec<Bundle>,
    peers: Vec<Node>,
    peer_index: usize,
    summary: Vec<u128>,
    queue: Vec<Bundle>,
    queue_index: usize,
    phase: Phase,
    attempted: bool,
    sent: SentLog,
}

/// The ids taken by some peer and, for each, the position of a candidate
/// with that id.
struct SentLog {
    ids: Vec<u128>,
    from: Ghost<Seq<int>>,
}

impl View for Forwarder {
    type V = ForwarderView;

    closed spec fn view(&self) -> ForwarderView {
        ForwarderView {
            self_id: self.self_id,
            requested: self.requested@,
            candidates: views(self.candidates@),
            peers: node_views(self.peers@),
            peer_index: self.peer_index as int,
            summary: self.summary@,
            queue: views(self.queue@),
            queue_index: self.queue_index as int,
            phase: self.phase,
            attempted: self.attempted,
            sent_ids: self.sent.ids@,
        }
    }
}

/// The nodes of `nodes` other than `me`, in order.
fn other_nodes(nodes: &Vec<Node>, me: u128) -> (r: Vec<Node>)
    ensures
        node_views(r@) == node_views(nodes@).filter(other_node(me)),
{
    let ghost s = node_views(nodes@);
    let mut out: Vec<Node> = Vec::new();
    let mut i: usize = 0;
    while i < nodes.len()
        invariant
            i <= nodes@.len(),
            s == node_views(nodes@),
            node_views(out@) == s.take(i as int).filter(other_node(me)),
        decreases nodes.len() - i,
    {
        proof {
            crate::seqs::lemma_filter_take_step(s, other_node(me), i as int);
        }
        if nodes[i].id != me {
            let c = nodes[i].clone();
            let ghost before = out@;
            out.push(c);
            assert(node_views(out@) =~= node_views(before).push(c@));
        }
        i = i + 1;
    }
    assert(s.take(s.len() as int) =~= s);
    out
}

impl Forwarder {
    #[verifier::type_invariant]
    spec fn inv(self) -> bool {
        &&& forall|i: int| 0 <= i < self.peers@.len() ==> (#[trigger] self.peers@[i]).id != self.self_id
        &&& (self.phase == Phase::AwaitSummary || self.phase == Phase::AwaitSend) ==> self.peer_index
            < self.peers@.len()
        &&& self.phase == Phase::AwaitSend ==> {
            &&& self.queue_index < self.queue@.len()
            &&& views(self.queue@) == missing_on_peer(views(self.candidates@), self.summary@)
        }
        &&& self.sent.ids@.no_duplicates()
        &&& self.sent.from@.len() == self.sent.ids@.len()
        &&& forall|i: int|
            0 <= i < self.sent.ids@.len() ==> {
                &&& 0 <= #[trigger] self.sent.from@[i] < self.candidates@.len()
                &&& self.candidates@[self.sent.from@[i]].id == self.sent.ids@[i]
            }
    }

    proof fn lemma_inv_wf(self)
        requires
            self.inv(),
        ensures
            self@.wf(),
    {
        assert(self@.peers.len() == self.peers@.len());
        assert(self@.queue.len() == self.queue@.len());
        assert(self@.sent_ids == self.sent.ids@);
        assert(self@.sent_ids.no_duplicates());
        assert(self.phase == Phase::AwaitSend ==> 0 <= self@.queue_index < self@.queue.len());
        assert(self.phase == Phase::AwaitSend ==> self@.queue == missing_on_peer(self@.candidates, self@.summary));
        assert((self@.phase == Phase::AwaitSummary || self@.phase == Phase::AwaitSend) ==> 0
            <= self@.peer_index < self@.peers.len());
        assert forall|i: int| 0 <= i < self@.peers.len() implies (#[trigger] self@.peers[i]).id
            != self@.self_id by {
            assert(self@.peers[i] == self.peers@[i]@);
        }
        assert forall|i: int| 0 <= i < self@.sent_ids.len() implies is_candidate_id(
            self@.candidates,
            #[trigger] self@.sent_ids[i],
        ) by {
            let j = self.sent.from@[i];
            assert(0 <= j < self.candidates@.len());
            assert(self@.candidates[j] == self.candidates@[j]@);
            assert(self@.sent_ids[i] == self.sent.ids@[i]);
            assert(0 <= j < self@.candidates.len() && self@.candidates[j].id == self@.sent_ids[i]);
        }
    }

    /// A forwarder of `candidates` for node `self_id`, which will ask the
    /// registry about the nodes `requested`.
    pub fn new(self_id: u128, requested: Vec<u128>, candidates: Vec<Bundle>) -> (f: Self)
        ensures
            f@ == ForwarderView::initial(self_id, requested@, views(candidates@)),
    {
        let f = Forwarder {
            self_id,
            requested,
            candidates,
            peers: Vec::new(),
            peer_index: 0,
            summary: Vec::new(),
            queue: Vec::new(),
            queue_index: 0,
            phase: Phase::Start,
            attempted: false,
            sent: SentLog { ids: Vec::new(), from: Ghost(Seq::empty()) },
        };
        assert(f@ =~= ForwarderView::initial(self_id, requested@, views(candidates@)));
        f
    }

    /// The first action: ask the registry. A forwarder already started does
    /// nothing more.
    pub fn begin(&mut self) -> (action: ForwardAction)
        ensures
            old(self)@.phase == Phase::Start ==> {
                &&& final(self)@ == (ForwarderView { phase: Phase::AwaitRegistry, ..old(self)@ })
                &&& action@ == (ActionView::QueryRegistry { requested: old(self)@.requested })
            },
            old(self)@.phase != Phase::Start ==> {
                &&& final(self)@ == (ForwarderView { phase: Phase::Done, ..old(self)@ })
                &&& action is Finished
            },
    {
        proof {
            use_type_invariant(&*self);
        }
        if self.phase == Phase::Start {
            self.phase = Phase::AwaitRegistry;
            ForwardAction::QueryRegistry { requested: self.requested.clone() }
        } else {
            self.phase = Phase::Done;
            ForwardAction::Finished
        }
    }

    /// Moves on to the next peer after the current one, or finishes.
    fn advance_peer(&mut self) -> (action: ForwardAction)
        requires
            old(self)@.phase == Phase::AwaitSummary,
            0 <= old(self)@.peer_index < old(self)@.peers.len(),
        ensures
            (final(self)@, action@) == next_peer(old(self)@),
    {
        proof {
            use_type_invariant(&*self);
        }
        let n = self.peers.len();
        assert(old(self)@.peers.len() == n);
        let k = self.peer_index + 1;
        if k < n {
            self.phase = Phase::AwaitSummary;
            self.peer_index = k;
            ForwardAction::AskSummary { peer: self.peers[k].clone() }
        } else {
            self.phase = Phase::Done;
            self.peer_index = k;
            ForwardAction::Finished
        }
    }

    /// Takes what the last action brought back and gives the next action.
    pub fn step(&mut self, event: ForwardEvent) -> (action: ForwardAction)
        ensures
            (final(self)@, action@) == forward_step(old(self)@, event@),
            old(self)@.wf(),
            final(self)@.wf(),
    {
        proof {
            use_type_invariant(&*self);
            self.lemma_inv_wf();
        }
        let action = self.transition(event);
        proof {
            use_type_invariant(&*self);
            self.lemma_inv_wf();
        }
        action
    }

    fn transition(&mut self, event: ForwardEvent) -> (action: ForwardAction)
        ensures
            (final(self)@, action@) == forward_step(old(self)@, event@),
    {
        proof {
            use_type_invariant(&*self);
        }
        match event {
            ForwardEvent::Connected { peers } => {
                if self.phase != Phase::AwaitRegistry {
                    self.phase = Phase::Done;
                    return ForwardAction::Finished;
                }
                let ps = other_nodes(&peers, self.self_id);
                proof {
                    assert forall|i: int| 0 <= i < ps@.len() implies (#[trigger] ps@[i]).id
                        != self.self_id by {
                        assert(node_views(ps@)[i] == ps@[i]@);
                        node_views(peers@).lemma_filter_pred(other_node(self.self_id), i);
                    }
                }
                self.peers = ps;
                if self.peers.len() == 0 {
                    self.phase = Phase::Done;
                    ForwardAction::Finished
                } else {
                    self.peer_index = 0;
                    self.phase = Phase::AwaitSummary;
                    ForwardAction::AskSummary { peer: self.peers[0].clone() }
                }
            },
            ForwardEvent::Summary { ids } => {
                if self.phase != Phase::AwaitSummary {
                    self.phase = Phase::Done;
                    return ForwardAction::Finished;
                }
                let q = missing_bundles(self.candidates.as_slice(), ids.as_slice());
                self.summary = ids;
                self.queue = q;
                self.queue_index = 0;
                if self.queue.len() == 0 {
                    self.advance_peer()
                } else {
                    self.phase = Phase::AwaitSend;
                    ForwardAction::Send {
                        bundle: self.queue[0].clone(),
                        peer: self.peers[self.peer_index].clone(),
                    }
                }
            },
            ForwardEvent::SendResult { delivered } => {
                if self.phase != Phase::AwaitSend {
                    self.phase = Phase::Done;
                    return ForwardAction::Finished;
                }
                let id = self.queue[self.queue_index].id;
                if delivered && !contains_u128(self.sent.ids.as_slice(), id) {
                    let ghost j: int;
                    proof {
                        let qi = self.queue_index as int;
                        crate::seqs::lemma_filter_is_subseq(
                            views(self.candidates@),
                            absent_from(self.summary@),
                            qi,
                        );
                        j = choose|j: int|
                            0 <= j < views(self.candidates@).len() && views(self.candidates@)[j]
                                == views(self.candidates@).filter(absent_from(self.summary@))[qi];
                        assert(views(self.queue@)[qi] == self.queue@[qi]@);
                        assert(views(self.candidates@)[j] == self.candidates@[j]@);
                    }
                    let mut ids = self.sent.ids.clone();
                    assert(ids@ =~= self.sent.ids@);
                    ids.push(id);
                    proof {
                        assert forall|a: int, b: int| 0 <= a < b < ids@.len() implies ids@[a]
                            != ids@[b] by {
                            if b == ids@.len() - 1 {
                                assert(self.sent.ids@[a] == ids@[a]);
                                assert(self.sent.ids@.contains(ids@[a]));
                            } else {
                                assert(self.sent.ids@[a] == ids@[a]);
                                assert(self.sent.ids@[b] == ids@[b]);
                            }
                        }
                    }
                    self.sent = SentLog { ids, from: Ghost(self.sent.from@.push(j)) };
                }
                self.attempted = true;
                let n = self.queue.len();
                let k = self.queue_index + 1;
                if k < n {
                    self.queue_index = k;
                    ForwardAction::Send {
                        bundle: self.queue[k].clone(),
                        peer: self.peers[self.peer_index].clone(),
                    }
                } else {
                    self.phase = Phase::AwaitSummary;
                    self.queue_index = k;
                    self.advance_peer()
                }
            },
        }
    }

    /// The ids of the candidates some peer took, each once.
    pub fn sent_ids(&self) -> (r: Vec<u128>)
        ensures
            r@ == self@.sent_ids,
    {
        let r = self.sent.ids.clone();
        assert(r@ =~= self.sent.ids@);
        r
    }

    /// Whether some send was attempted.
    pub fn attempted(&self) -> (r: bool)
        ensures
            r == self@.attempted,
    {
        self.attempted
    }

    /// Whether the exchange is over.
    pub fn is_finished(&self) -> (r: bool)
        ensures
            r == (self@.phase == Phase::Done),
    {
        self.phase == Phase::Done
    }
}

} // verus!
