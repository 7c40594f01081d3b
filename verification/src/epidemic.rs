//! The network seen as a weighted directed graph, for controlled epidemic
//! routing: each node maps to its outgoing edges (neighbour, cost).
use std::collections::HashMap;
use vstd::prelude::*;

verus! {

broadcast use vstd::std_specs::hash::group_hash_axioms;

/// Model of a graph: each node with an entry maps to its outgoing edges, in
/// the order they were added.
pub open spec fn graph_view(m: Map<u128, Vec<(u128, u32)>>) -> Map<u128, Seq<(u128, u32)>> {
    m.map_values(|v: Vec<(u128, u32)>| v@)
}

/// The edges leaving `node` in graph `g` (none where it has no entry).
pub open spec fn edges_of(g: Map<u128, Seq<(u128, u32)>>, node: u128) -> Seq<(u128, u32)> {
    if g.contains_key(node) {
        g[node]
    } else {
        Seq::empty()
    }
}

/// The network graph.
pub struct NetworkGraph {
    pub adjacency: HashMap<u128, Vec<(u128, u32)>>,
}

impl View for NetworkGraph {
    type V = Map<u128, Seq<(u128, u32)>>;

    open spec fn view(&self) -> Map<u128, Seq<(u128, u32)>> {
        graph_view(self.adjacency@)
    }
}

/// A copy of a list of edges.
fn copy_edges(v: &Vec<(u128, u32)>) -> (r: Vec<(u128, u32)>)
    ensures
        r@ == v@,
{
    let mut r: Vec<(u128, u32)> = Vec::new();
    let mut i: usize = 0;
    while i < v.len()
        invariant
            i <= v.len(),
            r@ == v@.take(i as int),
        decreases v.len() - i,
    {
        r.push(v[i]);
        assert(v@.take(i + 1) =~= v@.take(i as int).push(v@[i as int]));
        i = i + 1;
    }
    assert(v@.take(v.len() as int) =~= v@);
    r
}

impl NetworkGraph {
    /// A graph with no node.
    pub fn new() -> (g: Self)
        ensures
            g@ == Map::<u128, Seq<(u128, u32)>>::empty(),
    {
        let g = NetworkGraph { adjacency: HashMap::new() };
        assert(g@ =~= Map::<u128, Seq<(u128, u32)>>::empty());
        g
    }

    /// The graph with these adjacency lists.
    pub fn new_from_adjacency(adjacency: HashMap<u128, Vec<(u128, u32)>>) -> (g: Self)
        ensures
            g@ == graph_view(adjacency@),
    {
        NetworkGraph { adjacency }
    }

    /// Adds an edge from `source` to `destination` with `cost`, after the
    /// edges `source` already has.
    pub fn add_edge(&mut self, source: u128, destination: u128, cost: u32)
        ensures
            final(self)@ == old(self)@.insert(source, edges_of(old(self)@, source).push((destination, cost))),
    {
        let mut edges = match self.adjacency.get(&source) {
            Some(v) => copy_edges(v),
            None => Vec::new(),
        };
        edges.push((destination, cost));
        let ghost e = edges@;
        self.adjacency.insert(source, edges);
        assert(self@ =~= old(self)@.insert(source, e));
    }

    /// The edges leaving `node`, none where it has no entry.
    pub fn neighbors(&self, node: &u128) -> (r: Vec<(u128, u32)>)
        ensures
            r@ == edges_of(self@, *node),
    {
        match self.adjacency.get(node) {
            Some(v) => copy_edges(v),
            None => Vec::new(),
        }
    }
}

} // verus!
