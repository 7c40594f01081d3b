use std::collections::HashMap;
use whatspace::epidemic::NetworkGraph;

#[test]
fn edges_accumulate_per_source() {
    let mut g = NetworkGraph::new();
    assert!(g.neighbors(&1).is_empty());
    g.add_edge(1, 2, 5);
    g.add_edge(1, 3, 7);
    g.add_edge(2, 1, 1);
    assert_eq!(g.neighbors(&1), vec![(2, 5), (3, 7)]);
    assert_eq!(g.neighbors(&2), vec![(1, 1)]);
    assert!(g.neighbors(&3).is_empty());
}

#[test]
fn graph_from_adjacency() {
    let mut m = HashMap::new();
    m.insert(4u128, vec![(5u128, 2u32)]);
    let mut g = NetworkGraph::new_from_adjacency(m);
    assert_eq!(g.neighbors(&4), vec![(5, 2)]);
    g.add_edge(4, 6, 3);
    assert_eq!(g.neighbors(&4), vec![(5, 2), (6, 3)]);
}
