use maximizer::graphs::{Relationship, Relationships};
use maximizer::node::{Node, NodeTable};
use maximizer::path::Path;
use maximizer::subnets::{Subnet, Subnets};

fn node(name: &str, value: i64, cost: i64) -> Node {
    Node::new(name.to_string(), value, cost)
}

fn rels(entries: Vec<(&str, Vec<(&str, i64)>)>) -> Relationships {
    let mut r = Relationships::new();
    for (from, paths) in entries {
        let paths = paths
            .into_iter()
            .map(|(to, cost)| Path::new(to.to_string(), cost))
            .collect();
        assert!(r.insert(from.to_string(), Relationship::new(paths)));
    }
    r
}

#[test]
fn best_node_picks_the_first_highest_density() {
    // densities 2.0, 0.2, 2.0: the first maximal density wins
    let s = Subnet::new(&vec![node("a", 100, 50), node("b", 10, 50), node("c", 4, 2)]);
    assert_eq!(s.best_node().name, "a".to_string());
    // all densities zero: the first node wins by default
    let z = Subnet::new(&vec![node("x", 0, 1), node("y", 0, 1)]);
    assert_eq!(z.best_node().name, "x".to_string());
    // a strictly better density later in the list wins
    let w = Subnet::new(&vec![node("p", 1, 2), node("q", 9, 3)]);
    assert_eq!(w.best_node().name, "q".to_string());
}

#[test]
fn subnet_lookups() {
    let s0 = Subnet::new(&vec![node("a", 1, 1), node("b", 2, 1)]);
    let s1 = Subnet::new(&vec![node("c", 3, 1)]);
    let subnets = Subnets { subnets: vec![s0, s1] };
    assert!(subnets.get_subnet(0).is_some());
    assert!(subnets.get_subnet(2).is_none());
    assert_eq!(subnets.get_subnet_from_node(&node("c", 3, 1)), Some(1));
    assert_eq!(subnets.get_subnet_from_node(&node("b", 2, 1)), Some(0));
    // equality is on every field, not just the name
    assert_eq!(subnets.get_subnet_from_node(&node("b", 99, 1)), None);
}

#[test]
fn neighbours_lists_bridging_paths_keyed_by_filtered_order() {
    // two other subnets: one reachable from s0, one not
    let s0 = Subnet::new(&vec![node("a", 1, 1)]);
    let s1 = Subnet::new(&vec![node("b", 1, 1)]);
    let s2 = Subnet::new(&vec![node("c", 1, 1)]);
    let graph = rels(vec![
        ("a", vec![("b", 2)]),
        ("b", vec![("a", 1)]),
        ("c", vec![("a", 1)]),
    ]);
    let subnets = Subnets {
        subnets: vec![
            Subnet::new(&s0.nodes),
            Subnet::new(&s1.nodes),
            Subnet::new(&s2.nodes),
        ],
    };
    let m = subnets.neighbours(&s0, &graph);
    // the other subnets, in order, are [s1, s2]; only s1 is reachable
    assert_eq!(m.len(), 1);
    let rel = m.get(&0).unwrap();
    assert_eq!(rel.paths.len(), 1);
    assert_eq!(rel.paths[0].to, "b".to_string());
    assert_eq!(rel.paths[0].cost, 2);
    assert!(m.get(&1).is_none());
}

#[test]
fn neighbours_from_node_uses_the_containing_subnet() {
    let s0 = Subnet::new(&vec![node("a", 1, 1)]);
    let s1 = Subnet::new(&vec![node("b", 1, 1)]);
    let graph = rels(vec![("a", vec![("b", 3)]), ("b", vec![("a", 1)])]);
    let subnets = Subnets { subnets: vec![s0, s1] };
    let m = subnets.neigbours_from_node(&node("b", 1, 1), &graph);
    // seen from s1, the only other subnet is s0, reachable via b -> a
    assert_eq!(m.len(), 1);
    assert_eq!(m.get(&0).unwrap().paths[0].to, "a".to_string());
}

#[test]
fn clustering_groups_a_dense_neighbourhood() {
    // a complete directed graph on six nodes: every node is two hops
    // from itself, the two-hop neighbourhood holds all six nodes, and
    // each node has at least four paths back into it, so all six land in
    // one subnet.
    let names = ["n0", "n1", "n2", "n3", "n4", "n5"];
    let mut nodes = NodeTable::new();
    for n in names {
        assert!(nodes.insert(node(n, 1, 1)));
    }
    let mut entries: Vec<(&str, Vec<(&str, i64)>)> = Vec::new();
    for from in names {
        let paths: Vec<(&str, i64)> = names
            .iter()
            .filter(|to| **to != from)
            .map(|to| (*to, 1))
            .collect();
        entries.push((from, paths));
    }
    let graph = rels(entries);
    let subnets = Subnets::new(&graph, &nodes);
    assert_eq!(subnets.subnets.len(), 1);
    assert_eq!(subnets.subnets[0].nodes.len(), 6);
    let mut got: Vec<String> = subnets.subnets[0]
        .nodes
        .iter()
        .map(|n| n.name.clone())
        .collect();
    got.sort();
    assert_eq!(got, vec!["n0", "n1", "n2", "n3", "n4", "n5"]);
}

#[test]
fn clustering_finds_nothing_in_a_sparse_chain() {
    // a two-node cycle never comes back to a node in exactly two hops
    // with more than four distinct neighbours
    let mut nodes = NodeTable::new();
    assert!(nodes.insert(node("a", 1, 1)));
    assert!(nodes.insert(node("b", 1, 1)));
    let graph = rels(vec![("a", vec![("b", 1)]), ("b", vec![("a", 1)])]);
    let subnets = Subnets::new(&graph, &nodes);
    assert_eq!(subnets.subnets.len(), 0);
}
