use maximizer::graphs::{Relationship, Relationships};
use maximizer::maximizer::{ConfigError, Maximizer, SearchError};
use maximizer::node::{Node, NodeTable};
use maximizer::path::Path;
use maximizer::score::Score;
use maximizer::search::{CollectionAlgorithm, DepthSearchAlgo, SimpleSearch};
use maximizer::state::State;

fn node(name: &str, value: i64, cost: i64) -> Node {
    Node::new(name.to_string(), value, cost)
}

fn table(nodes: Vec<Node>) -> NodeTable {
    let mut t = NodeTable::new();
    for n in nodes {
        assert!(t.insert(n));
    }
    t
}

fn rels(entries: Vec<(&str, Vec<(&str, i64)>)>) -> Relationships {
    let mut r = Relationships::new();
    for (from, paths) in entries {
        let paths = paths
            .into_iter()
            .map(|(to, cost)| Path::new(to.to_string(), cost))
            .collect();
        assert!(r.insert(from.to_string(), Relationship::new(paths)));
    }
    r
}

/// threshold 0.75 as an exact rational
fn depth_algo(max_depth: i64) -> DepthSearchAlgo {
    DepthSearchAlgo::new(max_depth, 3, 4, 4)
}

#[test]
fn should_collect_follows_the_density_threshold() {
    // node A: value 100 / cost 50, density 2.0, above the 0.75 threshold;
    // node B: value 10 / cost 50, density 0.2, below it.
    let nodes = table(vec![node("A", 100, 50), node("B", 10, 50)]);
    let state = State::new("A".to_string(), 1000, 4);
    let m = Maximizer::new(state, nodes, rels(vec![]), depth_algo(4)).unwrap();
    assert!(m.algorithm.should_collect(&"A".to_string(), &m));
    assert!(!m.algorithm.should_collect(&"B".to_string(), &m));
}

#[test]
fn scoring_an_edge_twice_returns_the_same_value() {
    let nodes = table(vec![node("A", 3, 1), node("B", 2, 1)]);
    let graph = rels(vec![("A", vec![("B", 1)]), ("B", vec![("A", 1)])]);
    let state = State::new("A".to_string(), 4, 4);
    let m = Maximizer::new(state, nodes, graph, depth_algo(2)).unwrap();
    let path = Path::new("B".to_string(), 1);
    let first = m.algorithm.path_score(&path, &m);
    let second = m.algorithm.path_score(&path, &m);
    assert_eq!(first.num, second.num);
    assert_eq!(first.den, second.den);
}

#[test]
fn a_node_with_no_outgoing_paths_fails_the_run() {
    // the run reaches B, which has no outgoing paths: the driver must
    // fail with the no-viable-path condition rather than loop or stall.
    let nodes = table(vec![node("A", 0, 1), node("B", 0, 1)]);
    let graph = rels(vec![("A", vec![("B", 1)]), ("B", vec![])]);
    let state = State::new("A".to_string(), 10, 4);
    let mut m = Maximizer::new(state, nodes, graph, depth_algo(3)).unwrap();
    let r = m.collect();
    assert_eq!(r, Err(SearchError::NoViablePath));
    assert_eq!(m.state.current_company, "B".to_string());
    assert!(m.state.time_left > 0);
}

#[test]
fn a_node_with_only_a_self_loop_fails_the_run() {
    let nodes = table(vec![node("A", 0, 1), node("B", 0, 1)]);
    let graph = rels(vec![("A", vec![("B", 1)]), ("B", vec![("B", 1)])]);
    let state = State::new("A".to_string(), 10, 4);
    let mut m = Maximizer::new(state, nodes, graph, depth_algo(3)).unwrap();
    let r = m.collect();
    assert_eq!(r, Err(SearchError::NoViablePath));
}

#[test]
fn two_node_run_collects_both_values_and_exhausts_the_budget() {
    // A (3/1) and B (2/1), both above the threshold, joined by unit-cost
    // paths, budget 4: force-collect A (score 3, time 3), move to B and
    // collect it (score 5, time 1), move back to A without collecting
    // (time 0), done.
    let nodes = table(vec![node("A", 3, 1), node("B", 2, 1)]);
    let graph = rels(vec![("A", vec![("B", 1)]), ("B", vec![("A", 1)])]);
    let state = State::new("A".to_string(), 4, 4);
    let mut m = Maximizer::new(state, nodes, graph, depth_algo(2)).unwrap();
    let r = m.collect();
    assert!(r.is_ok());
    assert_eq!(m.state.score, 5);
    assert_eq!(m.state.time_left, 0);
    assert_eq!(m.state.current_company, "A".to_string());
    let log: Vec<(String, bool)> = m
        .state
        .last_companies
        .iter()
        .map(|a| (a.company.clone(), a.collected))
        .collect();
    assert_eq!(
        log,
        vec![
            ("A".to_string(), true),
            ("B".to_string(), true),
            ("A".to_string(), false),
        ]
    );
}

#[test]
fn lookahead_prefers_the_richer_branch() {
    // From A one can go to B (poor: 1/1) or C (rich: 40/1, density 40).
    // With one level of lookahead both are scored by the best final
    // score, and C must win.
    let nodes = table(vec![
        node("A", 0, 1),
        node("B", 1, 1),
        node("C", 40, 1),
        node("D", 0, 1),
    ]);
    let graph = rels(vec![
        ("A", vec![("B", 1), ("C", 1)]),
        ("B", vec![("D", 1)]),
        ("C", vec![("D", 1)]),
        ("D", vec![("A", 1)]),
    ]);
    let state = State::new("A".to_string(), 20, 4);
    let mut m = Maximizer::new(state, nodes, graph, depth_algo(1)).unwrap();
    let r = m.collect();
    assert!(r.is_ok());
    // the first move must have been to C
    assert_eq!(m.state.last_companies[1].company, "C".to_string());
    assert!(m.state.last_companies[1].collected);
}

#[test]
fn strategy_names_are_stable() {
    let d = depth_algo(3);
    let s = SimpleSearch::new(3, 4);
    assert_eq!(d.name(), "DepthSearchAlgo.v1");
    assert_eq!(s.name(), "Simple search");
}

#[test]
fn simple_search_scores_by_density_until_collected() {
    let nodes = table(vec![node("A", 0, 1), node("B", 9, 2)]);
    let graph = rels(vec![("A", vec![("B", 1)]), ("B", vec![("A", 1)])]);
    let state = State::new("A".to_string(), 10, 4);
    let m = Maximizer::new(state, nodes, graph, SimpleSearch::new(3, 4)).unwrap();
    let path = Path::new("B".to_string(), 1);
    let sc = m.algorithm.path_score(&path, &m);
    // value 9 over node cost 2 plus travel cost 1
    assert_eq!((sc.num, sc.den), (9, 3));
    assert!(m.algorithm.should_collect(&"B".to_string(), &m));
    // strictly-above threshold: density exactly 0.75 is not enough
    let nodes2 = table(vec![node("A", 0, 1), node("E", 3, 4)]);
    let state2 = State::new("A".to_string(), 10, 4);
    let m2 = Maximizer::new(state2, nodes2, rels(vec![]), SimpleSearch::new(3, 4)).unwrap();
    assert!(!m2.algorithm.should_collect(&"E".to_string(), &m2));
}

#[test]
fn simple_search_scores_zero_once_collected() {
    let nodes = table(vec![node("A", 0, 1), node("B", 9, 2)]);
    let graph = rels(vec![("A", vec![("B", 1)]), ("B", vec![("A", 1)])]);
    let mut state = State::new("A".to_string(), 10, 4);
    state
        .last_companies
        .push(maximizer::action::Action::new("B".to_string(), true));
    let m = Maximizer::new(state, nodes, graph, SimpleSearch::new(3, 4)).unwrap();
    let path = Path::new("B".to_string(), 1);
    let sc = m.algorithm.path_score(&path, &m);
    assert_eq!((sc.num, sc.den), (0, 1));
    assert!(!m.algorithm.should_collect(&"B".to_string(), &m));
}

#[test]
fn configuration_errors_are_reported_at_construction() {
    // a path that leads to an unknown node
    let nodes = table(vec![node("A", 1, 1)]);
    let graph = rels(vec![("A", vec![("ghost", 1)])]);
    let state = State::new("A".to_string(), 10, 4);
    let r = Maximizer::new(state, nodes, graph, depth_algo(3));
    assert!(matches!(r, Err(ConfigError::InvalidGraph)));

    // a missing starting node
    let nodes = table(vec![node("A", 1, 1)]);
    let state = State::new("elsewhere".to_string(), 10, 4);
    let r = Maximizer::new(state, nodes, rels(vec![]), depth_algo(3));
    assert!(matches!(r, Err(ConfigError::MissingStartingNode)));

    // a node table with a value out of bounds
    let nodes = NodeTable {
        entries: vec![Node {
            name: "A".to_string(),
            value: -1,
            cost: 1,
        }],
    };
    let state = State::new("A".to_string(), 10, 4);
    let r = Maximizer::new(state, nodes, rels(vec![]), depth_algo(3));
    assert!(matches!(r, Err(ConfigError::InvalidNodes)));

    // a state out of bounds
    let nodes = table(vec![node("A", 1, 1)]);
    let mut state = State::new("A".to_string(), 10, 4);
    state.score = -5;
    let r = Maximizer::new(state, nodes, rels(vec![]), depth_algo(3));
    assert!(matches!(r, Err(ConfigError::InvalidState)));

    // a strategy out of bounds
    let nodes = table(vec![node("A", 1, 1)]);
    let state = State::new("A".to_string(), 10, 4);
    let r = Maximizer::new(state, nodes, rels(vec![]), DepthSearchAlgo::new(-1, 3, 4, 4));
    assert!(matches!(r, Err(ConfigError::InvalidStrategy)));
}

#[test]
fn score_comparison_is_exact_over_rationals() {
    let a = Score { num: 2, den: 3 };
    let b = Score { num: 1, den: 2 };
    assert!(a.gt(&b));
    assert!(!b.gt(&a));
    let c = Score { num: 4, den: 6 };
    assert!(!a.gt(&c));
    assert!(!c.gt(&a));
    assert!(Score { num: 1, den: 1 }.gt(&Score::zero()));
}
