use maximizer::graphs::{Relationship, Relationships};
use maximizer::node::{Node, NodeTable};
use maximizer::path::Path;
use maximizer::state::State;

fn node(name: &str, value: i64, cost: i64) -> Node {
    Node::new(name.to_string(), value, cost)
}

#[test]
fn node_table_lookups_find_the_inserted_node() {
    let mut t = NodeTable::new();
    assert!(t.insert(node("a", 1, 2)));
    assert!(t.insert(node("b", 3, 4)));
    assert_eq!(t.len(), 2);
    let b = t.get(&"b".to_string()).unwrap();
    assert_eq!(b.name, "b".to_string());
    assert_eq!(b.value, 3);
    assert_eq!(b.cost, 4);
    assert!(t.get(&"c".to_string()).is_none());
    assert!(t.contains_name(&"a".to_string()));
    assert!(!t.contains_name(&"c".to_string()));
}

#[test]
fn node_table_rejects_a_duplicate_name() {
    let mut t = NodeTable::new();
    assert!(t.insert(node("a", 1, 2)));
    assert!(!t.insert(node("a", 9, 9)));
    assert_eq!(t.len(), 1);
    // the first entry wins
    assert_eq!(t.get(&"a".to_string()).unwrap().value, 1);
}

#[test]
fn node_table_well_formedness_check() {
    let mut t = NodeTable::new();
    assert!(t.insert(node("a", 1, 2)));
    assert!(t.check_wf());
    let bad = NodeTable {
        entries: vec![node("a", 1, 2), Node { name: "b".to_string(), value: 1, cost: 0 }],
    };
    assert!(!bad.check_wf());
    let dup = NodeTable { entries: vec![node("a", 1, 2), node("a", 3, 4)] };
    assert!(!dup.check_wf());
}

#[test]
fn relationships_lookups_find_the_inserted_entry() {
    let mut r = Relationships::new();
    assert!(r.insert(
        "a".to_string(),
        Relationship::new(vec![Path::new("b".to_string(), 5)]),
    ));
    assert!(!r.insert("a".to_string(), Relationship::new(vec![])));
    let rel = r.get(&"a".to_string()).unwrap();
    assert_eq!(rel.paths.len(), 1);
    assert_eq!(rel.paths[0].to, "b".to_string());
    assert_eq!(rel.paths[0].cost, 5);
    assert!(r.get(&"b".to_string()).is_none());
}

#[test]
fn closure_check_validates_destinations_and_costs() {
    let mut nodes = NodeTable::new();
    assert!(nodes.insert(node("a", 1, 2)));
    assert!(nodes.insert(node("b", 1, 2)));

    let mut ok = Relationships::new();
    assert!(ok.insert(
        "a".to_string(),
        Relationship::new(vec![Path::new("b".to_string(), 1)]),
    ));
    assert!(ok.closed_under(&nodes));

    let mut unknown_dest = Relationships::new();
    assert!(unknown_dest.insert(
        "a".to_string(),
        Relationship::new(vec![Path::new("ghost".to_string(), 1)]),
    ));
    assert!(!unknown_dest.closed_under(&nodes));

    let mut zero_cost = Relationships::new();
    assert!(zero_cost.insert(
        "a".to_string(),
        Relationship::new(vec![Path { to: "b".to_string(), cost: 0 }]),
    ));
    assert!(!zero_cost.closed_under(&nodes));
}

#[test]
fn duplicates_preserve_values() {
    let p = Path::new("x".to_string(), 3);
    let q = p.duplicate();
    assert_eq!(q.to, "x".to_string());
    assert_eq!(q.cost, 3);
    let rel = Relationship::new(vec![p]);
    let rel2 = rel.duplicate();
    assert_eq!(rel2.paths.len(), 1);
    assert_eq!(rel2.paths[0].to, "x".to_string());
    let n = node("n", 7, 8);
    let m = n.duplicate();
    assert_eq!(m.name, "n".to_string());
    assert_eq!(m.value, 7);
    assert_eq!(m.cost, 8);
}

#[test]
fn extreme_bounds_are_accepted() {
    let max = i32::MAX as i64;
    let n = node("big", max, max);
    // density exactly 1 at the largest supported size
    assert!(n.density_at_least(1, 1));
    assert!(!n.density_above(1, 1));
    assert!(n.density_above(max - 1, max));
    let mut t = NodeTable::new();
    assert!(t.insert(n));
    assert!(t.check_wf());
    let s = State::new("big".to_string(), max, i32::MAX);
    assert!(s.check_wf());
}

#[test]
fn density_comparisons_are_exact() {
    // density 2.0 against threshold 0.75
    let a = node("a", 100, 50);
    assert!(a.density_at_least(3, 4));
    assert!(a.density_above(3, 4));
    // density exactly at the threshold
    let e = node("e", 3, 4);
    assert!(e.density_at_least(3, 4));
    assert!(!e.density_above(3, 4));
    // density below
    let b = node("b", 10, 50);
    assert!(!b.density_at_least(3, 4));
}
