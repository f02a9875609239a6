//! The traversal state and its transition rule. The state tracks the
//! current position, an append-only visit log, the accumulated score, the
//! remaining time budget, and a revisit-tolerance counter (`ttl`) that is
//! decremented every time a transition re-enters an already-logged node.

use vstd::prelude::*;
use crate::action::{Action, ActionV};
use crate::node::{Node, NodeTable, NodeV, node_wf, nodes_wf, table_get};
use crate::path::{Path, PathV, path_wf};

verus! {

/// Mathematical model of the traversal state.
#[verifier::ext_equal]
pub struct StateV {
    pub current_company: Seq<char>,
    pub last_companies: Seq<ActionV>,
    pub score: int,
    pub time_left: int,
    pub ttl: int,
}

/// The traversal state: position, visit log, score, remaining budget and
/// revisit tolerance. Constructed once per run and advanced in place by
/// [`State::goto`]; the lookahead strategy works on value copies instead.
pub struct State {
    pub current_company: String,
    pub last_companies: Vec<Action>,
    pub score: i64,
    pub time_left: i64,
    pub ttl: i32,
}

impl View for State {
    type V = StateV;

    open spec fn view(&self) -> StateV {
        StateV {
            current_company: self.current_company@,
            last_companies: self.last_companies@.map(|i: int, a: Action| a@),
            score: self.score as int,
            time_left: self.time_left as int,
            ttl: self.ttl as int,
        }
    }
}

/// Some entry of the log records a visit to `name`.
pub open spec fn log_visited(log: Seq<ActionV>, name: Seq<char>) -> bool {
    exists|i: int| 0 <= i < log.len() && log[i].company == name
}

/// Some entry of the log records that `name`'s value was collected there.
pub open spec fn log_collected(log: Seq<ActionV>, name: Seq<char>) -> bool {
    exists|i: int| 0 <= i < log.len() && log[i].company == name && log[i].collected
}

/// A well-formed state. The bounds keep every sum the transition rule
/// forms inside `i64`: the budget fits in 31 bits, and since each
/// collection pays at least one unit of budget per `i32::MAX` of value,
/// the score can never outgrow `i64::MAX - time_left * i32::MAX`. The last
/// clause bounds how far the revisit tolerance can still fall: it drops by
/// at most one per transition while the budget drops by at least one.
pub open spec fn state_wf(s: StateV) -> bool {
    &&& 0 <= s.time_left <= i32::MAX as int
    &&& 0 <= s.score
    &&& s.score + s.time_left * (i32::MAX as int) <= i64::MAX as int
    &&& s.ttl <= i32::MAX as int
    &&& s.ttl + (i32::MAX as int) >= s.time_left
}

/// The transition rule, mathematically. Applying path `p` (whose
/// destination resolves to node `n`) to state `s` with collect decision
/// `collect`:
/// 1. if the destination is already in the visit log, the revisit
///    tolerance drops by one;
/// 2. a visit record for the destination is appended;
/// 3. if collecting was requested, tolerance remains, and the combined
///    node and travel cost is affordable, the node's value is added to the
///    score and its cost paid from the budget (otherwise collection is
///    silently skipped);
/// 4. the travel cost is paid unconditionally: an unaffordable travel
///    clamps the budget to zero and the move does not complete, otherwise
///    the position advances to the destination.
pub open spec fn spec_goto(s: StateV, p: PathV, n: NodeV, collect: bool) -> StateV {
    let ttl1 = if log_visited(s.last_companies, p.to) {
        s.ttl - 1
    } else {
        s.ttl
    };
    let log1 = s.last_companies.push(ActionV { company: p.to, collected: collect });
    let collected = collect && ttl1 > 0 && n.cost + p.cost <= s.time_left;
    let score1 = if collected {
        s.score + n.value
    } else {
        s.score
    };
    let time1 = if collected {
        s.time_left - n.cost
    } else {
        s.time_left
    };
    if time1 < p.cost {
        StateV {
            current_company: s.current_company,
            last_companies: log1,
            score: score1,
            time_left: 0,
            ttl: ttl1,
        }
    } else {
        StateV {
            current_company: p.to,
            last_companies: log1,
            score: score1,
            time_left: time1 - p.cost,
            ttl: ttl1,
        }
    }
}

/// The "force collect" applied to the starting node of a run: like an
/// ordinary collection, but it reserves room for one eventual outgoing
/// move by checking the node's cost twice against the budget.
pub open spec fn spec_force_collect(s: StateV, n: NodeV) -> StateV {
    if n.cost + n.cost <= s.time_left {
        StateV { score: s.score + n.value, time_left: s.time_left - n.cost, ..s }
    } else {
        s
    }
}

/// Well-formedness and the monotonicity laws of a single transition:
/// the budget never grows and never goes negative, the score never
/// shrinks, the revisit tolerance never grows, and an exhausted tolerance
/// forbids collection.
pub proof fn lemma_spec_goto_wf(s: StateV, p: PathV, n: NodeV, collect: bool)
    requires
        state_wf(s),
        path_wf(p),
        node_wf(n),
        s.time_left > 0,
    ensures
        state_wf(spec_goto(s, p, n, collect)),
        spec_goto(s, p, n, collect).time_left < s.time_left,
        spec_goto(s, p, n, collect).score >= s.score,
        spec_goto(s, p, n, collect).ttl <= s.ttl,
        s.ttl <= 0 ==> spec_goto(s, p, n, collect).score == s.score,
{
}

/// A sequence of transitions, each step giving the path followed, the node
/// it resolves to, and the collect decision.
pub open spec fn spec_goto_seq(s: StateV, steps: Seq<(PathV, NodeV, bool)>) -> StateV
    decreases steps.len(),
{
    if steps.len() == 0 {
        s
    } else {
        spec_goto_seq(spec_goto(s, steps[0].0, steps[0].1, steps[0].2), steps.drop_first())
    }
}

/// Across any sequence of transitions: the revisit tolerance is
/// non-increasing, and once it has reached zero no further collection
/// occurs — the score stays put no matter how the sequence continues.
/// Alongside, the budget is non-increasing and stays non-negative, and the
/// score is non-decreasing.
pub proof fn lemma_transition_seq_monotone(s: StateV, steps: Seq<(PathV, NodeV, bool)>)
    requires
        0 <= s.time_left,
        forall|k: int|
            0 <= k < steps.len() ==> path_wf((#[trigger] steps[k]).0) && node_wf(steps[k].1),
    ensures
        spec_goto_seq(s, steps).ttl <= s.ttl,
        s.ttl <= 0 ==> spec_goto_seq(s, steps).score == s.score,
        0 <= spec_goto_seq(s, steps).time_left <= s.time_left,
        spec_goto_seq(s, steps).score >= s.score,
    decreases steps.len(),
{
    if steps.len() > 0 {
        let s1 = spec_goto(s, steps[0].0, steps[0].1, steps[0].2);
        lemma_transition_seq_monotone(s1, steps.drop_first());
    }
}

impl State {
    /// A fresh state: positioned at `current_company`, an empty log, no
    /// score, the full budget, and the configured revisit tolerance.
    pub fn new(current_company: String, time_left: i64, ttl: i32) -> (s: State)
        requires
            0 <= time_left <= i32::MAX as i64,
            0 <= ttl,
        ensures
            s.current_company == current_company,
            s@.last_companies == Seq::<ActionV>::empty(),
            s.score == 0,
            s.time_left == time_left,
            s.ttl == ttl,
            state_wf(s@),
    {
        let s = State { current_company, last_companies: vec![], score: 0, time_left, ttl };
        proof {
            assert(s@.last_companies =~= Seq::<ActionV>::empty());
            assert(s.time_left as int * (i32::MAX as int) <= i32::MAX as int * (
            i32::MAX as int)) by (nonlinear_arith)
                requires
                    0 <= s.time_left as int <= i32::MAX as int,
            ;
        }
        s
    }

    /// An explicit value copy, as the lookahead strategy takes one before
    /// exploring a hypothetical future; the copy models identically.
    pub fn duplicate(&self) -> (s: State)
        ensures
            s@ == self@,
    {
        let n = self.last_companies.len();
        let mut log: Vec<Action> = Vec::new();
        let mut i: usize = 0;
        while i < n
            invariant
                n == self.last_companies.len(),
                0 <= i <= n,
                log@.len() == i,
                forall|k: int| 0 <= k < i ==> log@[k] == self.last_companies@[k],
            decreases n - i,
        {
            log.push(self.last_companies[i].duplicate());
            i = i + 1;
        }
        let s = State {
            current_company: self.current_company.clone(),
            last_companies: log,
            score: self.score,
            time_left: self.time_left,
            ttl: self.ttl,
        };
        proof {
            assert(s@ =~~= self@);
        }
        s
    }

    /// Whether the visit log holds an entry for `name`.
    pub fn visited(&self, name: &String) -> (b: bool)
        ensures
            b == log_visited(self@.last_companies, name@),
    {
        let n = self.last_companies.len();
        let mut i: usize = 0;
        while i < n
            invariant
                n == self.last_companies.len(),
                0 <= i <= n,
                forall|k: int| 0 <= k < i ==> (#[trigger] self@.last_companies[k]).company != name@,
            decreases n - i,
        {
            proof {
                assert(self@.last_companies[i as int] == self.last_companies@[i as int]@);
            }
            if self.last_companies[i].company == *name {
                return true;
            }
            i = i + 1;
        }
        false
    }

    /// Whether the visit log records a collection at `name`.
    pub fn collected_at(&self, name: &String) -> (b: bool)
        ensures
            b == log_collected(self@.last_companies, name@),
    {
        let n = self.last_companies.len();
        let mut i: usize = 0;
        while i < n
            invariant
                n == self.last_companies.len(),
                0 <= i <= n,
                forall|k: int|
                    0 <= k < i ==> !((#[trigger] self@.last_companies[k]).company == name@
                        && self@.last_companies[k].collected),
            decreases n - i,
        {
            proof {
                assert(self@.last_companies[i as int] == self.last_companies@[i as int]@);
            }
            if self.last_companies[i].collected && self.last_companies[i].company == *name {
                return true;
            }
            i = i + 1;
        }
        false
    }

    /// Whether this state is well-formed; see [`state_wf`]. Graph
    /// construction runs this check so that a malformed configuration is
    /// rejected before a traversal starts.
    pub fn check_wf(&self) -> (b: bool)
        ensures
            b == state_wf(self@),
    {
        0 <= self.time_left && self.time_left <= i32::MAX as i64 && 0 <= self.score && self.score
            <= i64::MAX - self.time_left * (i32::MAX as i64) && (self.ttl as i64) + (
        i32::MAX as i64) >= self.time_left
    }

    /// Collect the starting node of a run, before any path has been
    /// followed: the affordability check reserves room for an eventual
    /// outgoing move by counting the node's cost twice.
    pub fn force_collect(&mut self, node: &Node)
        requires
            state_wf(old(self)@),
            node_wf(node@),
        ensures
            final(self)@ == spec_force_collect(old(self)@, node@),
            state_wf(final(self)@),
            final(self)@.score >= old(self)@.score,
            0 <= final(self)@.time_left <= old(self)@.time_left,
            final(self)@.ttl == old(self)@.ttl,
    {
        if node.cost + node.cost <= self.time_left {
            self.score = self.score + node.value;
            self.time_left = self.time_left - node.cost;
        }
        proof {
            assert(self@ =~= spec_force_collect(old(self)@, node@));
        }
    }

    /// The transition rule; see [`spec_goto`] for the exact behaviour. The
    /// destination must resolve in `nodes`, must differ from the current
    /// position, and the state must not yet be terminal.
    pub fn goto(&mut self, path_followed: &Path, nodes: &NodeTable, collect: bool)
        requires
            state_wf(old(self)@),
            nodes_wf(nodes@),
            path_wf(path_followed@),
            table_get(nodes@, path_followed@.to) is Some,
            path_followed@.to != old(self)@.current_company,
            old(self)@.time_left > 0,
        ensures
            final(self)@ == spec_goto(
                old(self)@,
                path_followed@,
                table_get(nodes@, path_followed@.to)->0,
                collect,
            ),
            state_wf(final(self)@),
            0 <= final(self)@.time_left < old(self)@.time_left,
            final(self)@.score >= old(self)@.score,
            final(self)@.ttl <= old(self)@.ttl,
            old(self)@.ttl <= 0 ==> final(self)@.score == old(self)@.score,
    {
        let ghost n = table_get(nodes@, path_followed@.to)->0;
        proof {
            crate::node::lemma_table_get(nodes@, path_followed@.to);
            assert(node_wf(n));
        }
        let name = path_followed.to.clone();
        if self.visited(&name) {
            self.ttl = self.ttl - 1;
        }
        self.last_companies.push(Action { company: name.clone(), collected: collect });
        proof {
            assert(self@.last_companies =~= old(self)@.last_companies.push(
                ActionV { company: path_followed@.to, collected: collect },
            ));
        }
        if collect && self.ttl > 0 {
            match nodes.get(&name) {
                Some(temp_node) => {
                    if temp_node.cost + path_followed.cost <= self.time_left {
                        self.score = self.score + temp_node.value;
                        self.time_left = self.time_left - temp_node.cost;
                    }
                },
                None => {},
            }
        }
        if self.time_left < path_followed.cost {
            self.time_left = 0;
        } else {
            self.time_left = self.time_left - path_followed.cost;
            self.current_company = name;
        }
        proof {
            assert(self@ =~= spec_goto(old(self)@, path_followed@, n, collect));
        }
    }
}

} // verus!
