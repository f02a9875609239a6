//! Scoring strategies. A strategy answers two questions for the driver:
//! "should the node we are about to enter be collected" and "what is this
//! candidate path worth". The primary strategy simulates forward moves up
//! to a configured recursion depth over a value copy of the traversal
//! state and scores a path by the best final score among the explored
//! branches; a zero-lookahead strategy serves as a cheap baseline.

use vstd::prelude::*;
use vstd::math::max;
use crate::graphs::{RelEntryV, paths_of, lemma_rels_get_from};
use crate::maximizer::{driver_graph_wf, Maximizer};
use crate::node::{NodeV, density_at_least, density_above, lemma_table_get, table_get, threshold_wf};
use crate::path::{Path, PathV, path_wf};
use crate::score::{Score, ScoreV, score_wf};
use crate::state::{log_collected, spec_goto, state_wf, State, StateV};

verus! {

/// The scoring-strategy interface. Implementations may be swapped freely;
/// the driver only relies on the contracts below. Both operations treat
/// the driver snapshot as read-only, and both are pure: their result is a
/// function of the arguments alone, which is what makes re-scoring
/// idempotent (see [`lemma_score_edge_idempotent`]).
pub trait CollectionAlgorithm: Sized {
    /// Structural bounds the strategy's configuration must satisfy.
    spec fn wf(&self) -> bool;

    /// The strategy's descriptive name, as a specification value.
    spec fn spec_name(&self) -> Seq<char>;

    /// What `path_score` returns for a candidate path against a driver
    /// snapshot.
    spec fn spec_path_score(
        &self,
        path: PathV,
        state: StateV,
        nodes: Seq<NodeV>,
        rels: Seq<RelEntryV>,
    ) -> ScoreV;

    /// What `should_collect` returns for a node against a driver
    /// snapshot.
    spec fn spec_should_collect(&self, name: Seq<char>, state: StateV, nodes: Seq<NodeV>) -> bool;

    /// Whether this strategy's configuration is well-formed.
    fn check_wf(&self) -> (b: bool)
        ensures
            b == self.wf(),
    ;

    /// The strategy's descriptive name.
    fn name(&self) -> (r: &'static str)
        ensures
            r@ == self.spec_name(),
    ;

    /// The candidate-ranking value of following `path` from the driver's
    /// current position; higher is better, and the ordering is total.
    fn path_score(&self, path: &Path, maximiser: &Maximizer<Self>) -> (r: Score)
        requires
            self.wf(),
            driver_graph_wf(maximiser.nodes@, maximiser.relationships@, maximiser.state@),
            maximiser.algorithm == *self,
            path_wf(path@),
            table_get(maximiser.nodes@, path@.to) is Some,
            path@.to != maximiser.state@.current_company,
            maximiser.state@.time_left > 0,
        ensures
            r@ == self.spec_path_score(
                path@,
                maximiser.state@,
                maximiser.nodes@,
                maximiser.relationships@,
            ),
            score_wf(r@),
    ;

    /// Whether visiting the node named `company_name` is worth collecting
    /// its value, independent of lookahead.
    fn should_collect(&self, company_name: &String, maximiser: &Maximizer<Self>) -> (b: bool)
        requires
            self.wf(),
            driver_graph_wf(maximiser.nodes@, maximiser.relationships@, maximiser.state@),
            maximiser.algorithm == *self,
            table_get(maximiser.nodes@, company_name@) is Some,
        ensures
            b == self.spec_should_collect(company_name@, maximiser.state@, maximiser.nodes@),
    ;
}

/// Re-scoring is idempotent: a strategy's `path_score` is a function of
/// the candidate path and the driver snapshot alone, so two calls against
/// an unmutated driver must return equal scores.
pub proof fn lemma_score_edge_idempotent<A: CollectionAlgorithm>(
    algo: A,
    path: PathV,
    state: StateV,
    nodes: Seq<NodeV>,
    rels: Seq<RelEntryV>,
    r1: ScoreV,
    r2: ScoreV,
)
    requires
        r1 == algo.spec_path_score(path, state, nodes, rels),
        r2 == algo.spec_path_score(path, state, nodes, rels),
    ensures
        r1 == r2,
{
}

/// The depth-bounded recursive lookahead strategy: a candidate path is
/// scored by simulating forward moves from it, exploring every outgoing
/// path of each hypothetical position up to `max_depth` levels deep, and
/// taking the best final score among the explored branches. Each branch
/// works on its own value copy of the traversal state, whose revisit
/// tolerance is restarted at `ttl_per_iteration` for the simulation.
pub struct DepthSearchAlgo {
    pub max_depth: i64,
    pub collect_num: i64,
    pub collect_den: i64,
    pub ttl_per_iteration: i32,
}

impl DepthSearchAlgo {
    pub fn new(max_depth: i64, collect_num: i64, collect_den: i64, ttl_per_iteration: i32) -> (a:
        DepthSearchAlgo)
        ensures
            a.max_depth == max_depth,
            a.collect_num == collect_num,
            a.collect_den == collect_den,
            a.ttl_per_iteration == ttl_per_iteration,
    {
        DepthSearchAlgo { max_depth, collect_num, collect_den, ttl_per_iteration }
    }

    /// The collect decision inside a simulated branch: collect unless this
    /// branch's own history (which starts as a copy of the real history)
    /// already collected there, and the density clears the threshold.
    pub open spec fn spec_should_collect_own(
        &self,
        s: StateV,
        name: Seq<char>,
        nodes: Seq<NodeV>,
    ) -> bool {
        &&& !log_collected(s.last_companies, name)
        &&& self.spec_should_collect(name, s, nodes)
    }

    /// The simulated value of continuing from state `s` with `depth`
    /// levels of recursion left: the state's own score once the depth
    /// budget, the time budget, or the revisit tolerance is exhausted (or
    /// no path leads on), else the best branch among the outgoing paths.
    pub open spec fn spec_lookahead(
        &self,
        nodes: Seq<NodeV>,
        rels: Seq<RelEntryV>,
        s: StateV,
        depth: nat,
    ) -> int
        decreases depth, paths_of(rels, s.current_company).len() + 1,
    {
        if depth == 0 || s.time_left <= 0 || s.ttl <= 0 {
            s.score
        } else {
            let paths = paths_of(rels, s.current_company);
            if paths.len() == 0 {
                s.score
            } else {
                self.spec_branch_max(nodes, rels, s, depth, paths, 0)
            }
        }
    }

    /// The score contributed by one candidate path of a simulated
    /// position: zero for a path back to the position itself, else the
    /// lookahead value of the state after following the path. The `depth
    /// == 0` guard only makes the definition total; callers always have
    /// depth left.
    pub open spec fn spec_branch_entry(
        &self,
        nodes: Seq<NodeV>,
        rels: Seq<RelEntryV>,
        s: StateV,
        depth: nat,
        p: PathV,
    ) -> int
        decreases depth, 0int,
    {
        if depth == 0 || p.to == s.current_company {
            0
        } else {
            let n = table_get(nodes, p.to)->0;
            let coll = self.spec_should_collect_own(s, p.to, nodes);
            self.spec_lookahead(nodes, rels, spec_goto(s, p, n, coll), (depth - 1) as nat)
        }
    }

    /// The best branch among the paths from index `i` on. The guards only
    /// make the definition total; callers always have depth left and a
    /// valid index.
    pub open spec fn spec_branch_max(
        &self,
        nodes: Seq<NodeV>,
        rels: Seq<RelEntryV>,
        s: StateV,
        depth: nat,
        paths: Seq<PathV>,
        i: int,
    ) -> int
        decreases depth, paths.len() - i,
    {
        if depth == 0 || i < 0 || i >= paths.len() {
            0
        } else {
            let entry = self.spec_branch_entry(nodes, rels, s, depth, paths[i]);
            if i == paths.len() - 1 {
                entry
            } else {
                max(entry, self.spec_branch_max(nodes, rels, s, depth, paths, i + 1))
            }
        }
    }

    /// The branch-local collect decision; see [`Self::spec_should_collect_own`].
    pub fn should_collect_own(
        &self,
        state: &State,
        company_name: &String,
        maximizer: &Maximizer<DepthSearchAlgo>,
    ) -> (b: bool)
        requires
            self.wf(),
            driver_graph_wf(maximizer.nodes@, maximizer.relationships@, maximizer.state@),
            maximizer.algorithm == *self,
            table_get(maximizer.nodes@, company_name@) is Some,
        ensures
            b == self.spec_should_collect_own(state@, company_name@, maximizer.nodes@),
    {
        !state.collected_at(company_name) && self.should_collect(company_name, maximizer)
    }

    /// The score of one candidate path of a simulated position; the
    /// executable counterpart of [`Self::spec_branch_entry`].
    fn branch_score(
        &self,
        maximiser: &Maximizer<DepthSearchAlgo>,
        depth: i64,
        state: &State,
        path: &Path,
    ) -> (sc: i64)
        requires
            self.wf(),
            driver_graph_wf(maximiser.nodes@, maximiser.relationships@, maximiser.state@),
            maximiser.algorithm == *self,
            state_wf(state@),
            state@.time_left > 0,
            1 <= depth,
            path_wf(path@),
            table_get(maximiser.nodes@, path@.to) is Some,
        ensures
            sc == self.spec_branch_entry(
                maximiser.nodes@,
                maximiser.relationships@,
                state@,
                depth as nat,
                path@,
            ),
        decreases depth, 0int,
    {
        if path.to == state.current_company {
            0
        } else {
            let coll = self.should_collect_own(state, &path.to, maximiser);
            let mut next_state = state.duplicate();
            next_state.goto(path, &maximiser.nodes, coll);
            self.recursive_collector(maximiser, depth - 1, next_state)
        }
    }

    /// The depth-bounded simulation; the executable counterpart of
    /// [`Self::spec_lookahead`]. Explores every outgoing path of the
    /// simulated position on its own copy of the state and returns the
    /// best final score found. Termination is by the depth budget alone,
    /// so the number of recursive calls is bounded by
    /// `branching_factor ^ depth` no matter how cyclic the graph is.
    pub fn recursive_collector(
        &self,
        maximiser: &Maximizer<DepthSearchAlgo>,
        depth: i64,
        state: State,
    ) -> (score: i64)
        requires
            self.wf(),
            driver_graph_wf(maximiser.nodes@, maximiser.relationships@, maximiser.state@),
            maximiser.algorithm == *self,
            state_wf(state@),
            0 <= depth,
        ensures
            score == self.spec_lookahead(
                maximiser.nodes@,
                maximiser.relationships@,
                state@,
                depth as nat,
            ),
        decreases depth, 1int,
    {
        if depth == 0 || state.time_left <= 0 || state.ttl <= 0 {
            return state.score;
        }
        match maximiser.relationships.get(&state.current_company) {
            None => state.score,
            Some(rel) => {
                let ghost pathsv = paths_of(maximiser.relationships@, state@.current_company);
                let ghost k: int;
                proof {
                    assert(pathsv == rel@);
                    lemma_rels_get_from(maximiser.relationships@, state@.current_company, 0);
                    k = choose|k: int|
                        0 <= k < maximiser.relationships@.len()
                            && maximiser.relationships@[k].company == state@.current_company
                            && maximiser.relationships@[k].paths == pathsv;
                    assert forall|j: int| 0 <= j < pathsv.len() implies path_wf(#[trigger] pathsv[j])
                        && table_get(maximiser.nodes@, pathsv[j].to) is Some by {
                        assert(path_wf(maximiser.relationships@[k].paths[j]) && table_get(
                            maximiser.nodes@,
                            maximiser.relationships@[k].paths[j].to,
                        ) is Some);
                    }
                }
                let m = rel.paths.len();
                if m == 0 {
                    proof {
                        assert(pathsv.len() == 0);
                    }
                    state.score
                } else {
                    let mut i: usize = m - 1;
                    proof {
                        assert(pathsv[i as int] == rel.paths@[i as int]@);
                    }
                    let mut acc: i64 = self.branch_score(maximiser, depth, &state, &rel.paths[i]);
                    while i > 0
                        invariant
                            self.wf(),
                            driver_graph_wf(
                                maximiser.nodes@,
                                maximiser.relationships@,
                                maximiser.state@,
                            ),
                            maximiser.algorithm == *self,
                            state_wf(state@),
                            state@.time_left > 0,
                            state@.ttl > 0,
                            1 <= depth,
                            m == rel.paths.len(),
                            rel@ == pathsv,
                            pathsv == paths_of(maximiser.relationships@, state@.current_company),
                            forall|j: int|
                                0 <= j < pathsv.len() ==> path_wf(#[trigger] pathsv[j])
                                    && table_get(maximiser.nodes@, pathsv[j].to) is Some,
                            0 <= i < m,
                            acc == self.spec_branch_max(
                                maximiser.nodes@,
                                maximiser.relationships@,
                                state@,
                                depth as nat,
                                pathsv,
                                i as int,
                            ),
                        decreases i,
                    {
                        i = i - 1;
                        proof {
                            assert(pathsv[i as int] == rel.paths@[i as int]@);
                        }
                        let entry = self.branch_score(maximiser, depth, &state, &rel.paths[i]);
                        if entry > acc {
                            acc = entry;
                        }
                    }
                    acc
                }
            },
        }
    }
}

impl CollectionAlgorithm for DepthSearchAlgo {
    open spec fn wf(&self) -> bool {
        &&& 0 <= self.max_depth
        &&& threshold_wf(self.collect_num as int, self.collect_den as int)
        &&& 0 <= self.ttl_per_iteration
    }

    open spec fn spec_name(&self) -> Seq<char> {
        "DepthSearchAlgo.v1"@
    }

    /// The composite score of a candidate path: apply the path to a copy
    /// of the real state (collecting by the driver-level decision),
    /// restart the copy's revisit tolerance, and simulate up to
    /// `max_depth` levels; the score is the best final score found, as an
    /// integer rational.
    open spec fn spec_path_score(
        &self,
        path: PathV,
        state: StateV,
        nodes: Seq<NodeV>,
        rels: Seq<RelEntryV>,
    ) -> ScoreV {
        let coll = self.spec_should_collect_own(state, path.to, nodes);
        let s1 = spec_goto(state, path, table_get(nodes, path.to)->0, coll);
        let s2 = StateV { ttl: self.ttl_per_iteration as int, ..s1 };
        ScoreV { num: self.spec_lookahead(nodes, rels, s2, self.max_depth as nat), den: 1 }
    }

    /// Collect wherever the node's value density clears the configured
    /// threshold.
    open spec fn spec_should_collect(
        &self,
        name: Seq<char>,
        state: StateV,
        nodes: Seq<NodeV>,
    ) -> bool {
        density_at_least(
            table_get(nodes, name)->0,
            self.collect_num as int,
            self.collect_den as int,
        )
    }

    fn check_wf(&self) -> (b: bool) {
        0 <= self.max_depth && 0 <= self.collect_num && self.collect_num <= i32::MAX as i64 && 1
            <= self.collect_den && self.collect_den <= i32::MAX as i64 && 0
            <= self.ttl_per_iteration
    }

    fn name(&self) -> (r: &'static str) {
        "DepthSearchAlgo.v1"
    }

    fn path_score(&self, path: &Path, maximiser: &Maximizer<DepthSearchAlgo>) -> (r: Score) {
        let coll = self.should_collect_own(&maximiser.state, &path.to, maximiser);
        let mut state = maximiser.state.duplicate();
        state.goto(path, &maximiser.nodes, coll);
        state.ttl = self.ttl_per_iteration;
        proof {
            assert(state_wf(state@));
        }
        let sc = self.recursive_collector(maximiser, self.max_depth, state);
        Score { num: sc, den: 1 }
    }

    fn should_collect(&self, company_name: &String, maximiser: &Maximizer<DepthSearchAlgo>) -> (b:
        bool) {
        match maximiser.nodes.get(company_name) {
            Some(node) => {
                proof {
                    lemma_table_get(maximiser.nodes@, company_name@);
                }
                node.density_at_least(self.collect_num, self.collect_den)
            },
            None => false,
        }
    }
}

/// The zero-lookahead baseline strategy: a path is worth its destination's
/// value density unless the destination was already collected somewhere in
/// the run, and a node is collected when its density is strictly above the
/// threshold and it was not collected before.
pub struct SimpleSearch {
    pub collect_num: i64,
    pub collect_den: i64,
}

impl SimpleSearch {
    pub fn new(collect_num: i64, collect_den: i64) -> (a: SimpleSearch)
        ensures
            a.collect_num == collect_num,
            a.collect_den == collect_den,
    {
        SimpleSearch { collect_num, collect_den }
    }
}

impl CollectionAlgorithm for SimpleSearch {
    open spec fn wf(&self) -> bool {
        threshold_wf(self.collect_num as int, self.collect_den as int)
    }

    open spec fn spec_name(&self) -> Seq<char> {
        "Simple search"@
    }

    /// The destination's value density over the combined travel and
    /// collection cost, or zero if the destination was already collected.
    open spec fn spec_path_score(
        &self,
        path: PathV,
        state: StateV,
        nodes: Seq<NodeV>,
        rels: Seq<RelEntryV>,
    ) -> ScoreV {
        if !log_collected(state.last_companies, path.to) {
            let n = table_get(nodes, path.to)->0;
            ScoreV { num: n.value, den: n.cost + path.cost }
        } else {
            ScoreV { num: 0, den: 1 }
        }
    }

    /// Collect where the density is strictly above the threshold and the
    /// node was not collected anywhere in the run yet.
    open spec fn spec_should_collect(
        &self,
        name: Seq<char>,
        state: StateV,
        nodes: Seq<NodeV>,
    ) -> bool {
        &&& density_above(table_get(nodes, name)->0, self.collect_num as int, self.collect_den as int)
        &&& !log_collected(state.last_companies, name)
    }

    fn check_wf(&self) -> (b: bool) {
        0 <= self.collect_num && self.collect_num <= i32::MAX as i64 && 1 <= self.collect_den
            && self.collect_den <= i32::MAX as i64
    }

    fn name(&self) -> (r: &'static str) {
        "Simple search"
    }

    fn path_score(&self, path: &Path, maximiser: &Maximizer<SimpleSearch>) -> (r: Score) {
        if !maximiser.state.collected_at(&path.to) {
            match maximiser.nodes.get(&path.to) {
                Some(node) => {
                    proof {
                        lemma_table_get(maximiser.nodes@, path@.to);
                    }
                    Score { num: node.value, den: node.cost + path.cost }
                },
                None => Score::zero(),
            }
        } else {
            Score::zero()
        }
    }

    fn should_collect(&self, company_name: &String, maximiser: &Maximizer<SimpleSearch>) -> (b:
        bool) {
        match maximiser.nodes.get(company_name) {
            Some(node) => {
                proof {
                    lemma_table_get(maximiser.nodes@, company_name@);
                }
                node.density_above(self.collect_num, self.collect_den)
                    && !maximiser.state.collected_at(company_name)
            },
            None => false,
        }
    }
}

} // verus!
