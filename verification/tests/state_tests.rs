use maximizer::action::Action;
use maximizer::node::{Node, NodeTable};
use maximizer::path::Path;
use maximizer::state::State;

fn node(name: &str, value: i64, cost: i64) -> Node {
    Node::new(name.to_string(), value, cost)
}

fn table(nodes: Vec<Node>) -> NodeTable {
    let mut t = NodeTable::new();
    for n in nodes {
        assert!(t.insert(n));
    }
    t
}

#[test]
fn travel_succeeds_but_collection_is_skipped_when_unaffordable() {
    // budget 100, edge cost 30, destination node cost 80: 30 + 80 > 100,
    // so the collection is silently skipped but the travel still happens.
    let nodes = table(vec![node("a", 5, 10), node("b", 40, 80)]);
    let mut state = State::new("a".to_string(), 100, 4);
    let path = Path::new("b".to_string(), 30);
    state.goto(&path, &nodes, true);
    assert_eq!(state.score, 0);
    assert_eq!(state.time_left, 70);
    assert_eq!(state.current_company, "b".to_string());
}

#[test]
fn force_collect_reserves_room_for_an_outgoing_move() {
    // value 50, cost 20, budget 100: 20 + 20 <= 100, so the value is
    // collected and only the node cost is paid.
    let nodes = table(vec![node("start", 50, 20)]);
    let mut state = State::new("start".to_string(), 100, 4);
    let start = nodes.get(&"start".to_string()).unwrap().duplicate();
    state.force_collect(&start);
    assert_eq!(state.score, 50);
    assert_eq!(state.time_left, 80);
}

#[test]
fn force_collect_skips_when_double_cost_exceeds_budget() {
    let nodes = table(vec![node("start", 50, 60)]);
    let mut state = State::new("start".to_string(), 100, 4);
    let start = nodes.get(&"start".to_string()).unwrap().duplicate();
    state.force_collect(&start);
    assert_eq!(state.score, 0);
    assert_eq!(state.time_left, 100);
}

#[test]
fn revisit_drops_tolerance_and_exhausted_tolerance_blocks_collection() {
    // tolerance starts at 1; revisiting a logged node drops it to 0, and
    // from then on no collection happens no matter how worthy the node.
    let nodes = table(vec![node("a", 10, 1), node("b", 100, 1)]);
    let mut state = State::new("a".to_string(), 100, 1);
    state.last_companies.push(Action::new("b".to_string(), false));
    let to_b = Path::new("b".to_string(), 1);
    state.goto(&to_b, &nodes, true);
    // the revisit dropped the tolerance before the collection check
    assert_eq!(state.ttl, 0);
    assert_eq!(state.score, 0);
    assert_eq!(state.time_left, 99);
    assert_eq!(state.current_company, "b".to_string());
    // a further revisit still collects nothing
    let to_a = Path::new("a".to_string(), 1);
    state.goto(&to_a, &nodes, true);
    let to_b2 = Path::new("b".to_string(), 1);
    state.goto(&to_b2, &nodes, true);
    assert_eq!(state.score, 0);
    assert_eq!(state.ttl, -1);
}

#[test]
fn first_visit_collects_when_affordable() {
    let nodes = table(vec![node("a", 10, 1), node("b", 100, 50)]);
    let mut state = State::new("a".to_string(), 100, 4);
    let to_b = Path::new("b".to_string(), 10);
    state.goto(&to_b, &nodes, true);
    // 50 + 10 <= 100: collect 100, pay 50, then pay the travel cost 10
    assert_eq!(state.score, 100);
    assert_eq!(state.time_left, 40);
    assert_eq!(state.ttl, 4);
    assert_eq!(state.current_company, "b".to_string());
    assert_eq!(state.last_companies.len(), 1);
    assert_eq!(state.last_companies[0].company, "b".to_string());
    assert!(state.last_companies[0].collected);
}

#[test]
fn unaffordable_travel_clamps_budget_and_cancels_the_move() {
    let nodes = table(vec![node("a", 10, 1), node("b", 5, 1)]);
    let mut state = State::new("a".to_string(), 3, 4);
    let to_b = Path::new("b".to_string(), 7);
    state.goto(&to_b, &nodes, false);
    assert_eq!(state.time_left, 0);
    // the move did not complete: the position is unchanged
    assert_eq!(state.current_company, "a".to_string());
    // but the visit was still logged
    assert_eq!(state.last_companies.len(), 1);
}

#[test]
fn budget_never_grows_and_score_never_shrinks_across_transitions() {
    let nodes = table(vec![node("a", 3, 2), node("b", 4, 2), node("c", 9, 3)]);
    let mut state = State::new("a".to_string(), 30, 2);
    let hops = vec![
        ("b", 2, true),
        ("c", 3, false),
        ("a", 2, true),
        ("b", 2, true),
        ("c", 4, true),
    ];
    let mut last_budget = state.time_left;
    let mut last_score = state.score;
    let mut last_ttl = state.ttl;
    for (to, cost, collect) in hops {
        let p = Path::new(to.to_string(), cost);
        state.goto(&p, &nodes, collect);
        assert!(state.time_left <= last_budget);
        assert!(state.time_left >= 0);
        assert!(state.score >= last_score);
        assert!(state.ttl <= last_ttl);
        last_budget = state.time_left;
        last_score = state.score;
        last_ttl = state.ttl;
    }
}

#[test]
fn visit_log_queries_distinguish_visits_from_collections() {
    let mut state = State::new("a".to_string(), 10, 2);
    state.last_companies.push(Action::new("b".to_string(), false));
    state.last_companies.push(Action::new("c".to_string(), true));
    assert!(state.visited(&"b".to_string()));
    assert!(state.visited(&"c".to_string()));
    assert!(!state.visited(&"a".to_string()));
    assert!(!state.collected_at(&"b".to_string()));
    assert!(state.collected_at(&"c".to_string()));
    assert!(!state.collected_at(&"d".to_string()));
}

#[test]
fn state_well_formedness_check() {
    let good = State::new("a".to_string(), 100, 4);
    assert!(good.check_wf());
    let mut negative_score = State::new("a".to_string(), 100, 4);
    negative_score.score = -1;
    assert!(!negative_score.check_wf());
    let mut negative_budget = State::new("a".to_string(), 100, 4);
    negative_budget.time_left = -1;
    assert!(!negative_budget.check_wf());
}

#[test]
fn duplicate_is_a_faithful_value_copy() {
    let mut state = State::new("a".to_string(), 10, 2);
    state.last_companies.push(Action::new("b".to_string(), true));
    state.score = 7;
    let copy = state.duplicate();
    assert_eq!(copy.current_company, state.current_company);
    assert_eq!(copy.score, 7);
    assert_eq!(copy.time_left, 10);
    assert_eq!(copy.ttl, 2);
    assert_eq!(copy.last_companies.len(), 1);
    assert_eq!(copy.last_companies[0].company, "b".to_string());
    assert!(copy.last_companies[0].collected);
}
