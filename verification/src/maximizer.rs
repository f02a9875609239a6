//! The driver: owns the traversal state, the full graph and a scoring
//! strategy, and runs the greedy step loop until the budget is exhausted.
//! Each step scores every outgoing path of the current position, follows
//! the strictly best-scoring one (never a path back to the current
//! position; ties broken by first-seen), falls back to the first listed
//! path when nothing scores above zero, and applies the transition rule.

use vstd::prelude::*;
use crate::action::{Action, ActionV};
use crate::graphs::{Relationships, RelEntryV, lemma_rels_get_from, paths_of};
use crate::node::{NodeTable, NodeV, nodes_wf, table_get};
use crate::path::{Path, PathV, path_wf};
use crate::score::{Score, ScoreV, score_gt, score_wf};
use crate::search::CollectionAlgorithm;
use crate::state::{
    log_collected, spec_force_collect, spec_goto, state_wf, State, StateV,
};

verus! {

/// A configuration defect found while assembling a driver; fatal, and
/// surfaced before the run starts.
#[derive(Clone, Copy, Debug, PartialEq, Eq, Structural)]
pub enum ConfigError {
    /// The node table has a duplicate name or a node out of bounds.
    InvalidNodes,
    /// Some path has a cost out of bounds or leads to an unknown node.
    InvalidGraph,
    /// The starting position does not name a known node.
    MissingStartingNode,
    /// The starting state is out of bounds.
    InvalidState,
    /// The strategy's configuration is out of bounds.
    InvalidStrategy,
}

/// A run that cannot proceed: the current node has no outgoing path, or
/// no move leads anywhere but back to the current position.
#[derive(Clone, Copy, Debug, PartialEq, Eq, Structural)]
pub enum SearchError {
    NoViablePath,
}

/// The graph-and-state part of the driver invariant: well-formed tables
/// and state, and a current position that names a known node. Stated over
/// the components so that the strategy interface can demand it without
/// referring back to the strategy's own bounds.
pub open spec fn driver_graph_wf(nodes: Seq<NodeV>, rels: Seq<RelEntryV>, state: StateV) -> bool {
    &&& nodes_wf(nodes)
    &&& crate::graphs::rels_closed(rels, nodes)
    &&& state_wf(state)
    &&& table_get(nodes, state.current_company) is Some
}

/// The driver-level collect decision for entering `name`: collect unless
/// the run has already collected there, and the strategy judges the node
/// worth it.
pub open spec fn spec_collect_here<A: CollectionAlgorithm>(
    algo: A,
    name: Seq<char>,
    state: StateV,
    nodes: Seq<NodeV>,
) -> bool {
    &&& !log_collected(state.last_companies, name)
    &&& algo.spec_should_collect(name, state, nodes)
}

/// The path-selection scan from index `i` on, carrying the best candidate
/// found so far (its index and score). A candidate must score strictly
/// above the best so far — initially zero — and must not lead back to the
/// current position.
pub open spec fn spec_select<A: CollectionAlgorithm>(
    algo: A,
    nodes: Seq<NodeV>,
    rels: Seq<RelEntryV>,
    state: StateV,
    paths: Seq<PathV>,
    i: int,
    best: Option<(int, ScoreV)>,
) -> Option<int>
    decreases paths.len() - i,
{
    if i < 0 || i >= paths.len() {
        match best {
            Some(b) => Some(b.0),
            None => None,
        }
    } else {
        let sc = algo.spec_path_score(paths[i], state, nodes, rels);
        let best_score = match best {
            Some(b) => b.1,
            None => ScoreV { num: 0, den: 1 },
        };
        if paths[i].to != state.current_company && score_gt(sc, best_score) {
            spec_select(algo, nodes, rels, state, paths, i + 1, Some((i, sc)))
        } else {
            spec_select(algo, nodes, rels, state, paths, i + 1, best)
        }
    }
}

/// What one selection round returns: the best-scoring non-self path, the
/// first listed path when nothing scores above zero, and nothing when the
/// current position has no outgoing path at all.
pub open spec fn spec_max_score_collect<A: CollectionAlgorithm>(
    algo: A,
    nodes: Seq<NodeV>,
    rels: Seq<RelEntryV>,
    state: StateV,
) -> Option<PathV> {
    let paths = paths_of(rels, state.current_company);
    match spec_select(algo, nodes, rels, state, paths, 0, None) {
        Some(k) => Some(paths[k]),
        None => if paths.len() == 0 {
            None
        } else {
            Some(paths[0])
        },
    }
}

/// The run's entry work, before any path is followed: log a visit to the
/// starting node with the driver-level collect decision and, if
/// collecting, force-collect the starting node.
pub open spec fn spec_prepare<A: CollectionAlgorithm>(
    algo: A,
    nodes: Seq<NodeV>,
    s: StateV,
) -> StateV {
    let coll = spec_collect_here(algo, s.current_company, s, nodes);
    let s1 = StateV {
        last_companies: s.last_companies.push(
            ActionV { company: s.current_company, collected: coll },
        ),
        ..s
    };
    if coll {
        spec_force_collect(s1, table_get(nodes, s.current_company)->0)
    } else {
        s1
    }
}

/// The greedy step loop, mathematically. From a non-terminal state, one
/// selection round either fails the run (no outgoing path, or the
/// fallback leads back to the current position) — the error carries the
/// state at the stall — or yields the next transition, which strictly
/// consumes budget, so the loop reaches a terminal state. The last guard
/// only makes the recursion well-founded; on a well-formed graph the
/// transition rule guarantees it.
pub open spec fn spec_run<A: CollectionAlgorithm>(
    algo: A,
    nodes: Seq<NodeV>,
    rels: Seq<RelEntryV>,
    s: StateV,
) -> Result<StateV, StateV>
    decreases s.time_left,
{
    if s.time_left <= 0 {
        Ok(s)
    } else {
        match spec_max_score_collect(algo, nodes, rels, s) {
            None => Err(s),
            Some(p) => if p.to == s.current_company {
                Err(s)
            } else {
                let coll = spec_collect_here(algo, p.to, s, nodes);
                let s1 = spec_goto(s, p, table_get(nodes, p.to)->0, coll);
                if 0 <= s1.time_left < s.time_left {
                    spec_run(algo, nodes, rels, s1)
                } else {
                    Err(s)
                }
            },
        }
    }
}

/// The driver. Owns the traversal state, the graph (node table plus
/// adjacency), and the scoring strategy that ranks candidate paths.
pub struct Maximizer<A: CollectionAlgorithm> {
    pub state: State,
    pub nodes: NodeTable,
    pub relationships: Relationships,
    pub algorithm: A,
}

impl<A: CollectionAlgorithm> Maximizer<A> {
    /// The driver invariant: a well-formed graph, state and strategy.
    pub open spec fn wf(&self) -> bool {
        &&& driver_graph_wf(self.nodes@, self.relationships@, self.state@)
        &&& self.algorithm.wf()
    }

    /// Assemble a driver, validating the configuration first: every path
    /// must be in bounds and lead to a known node, the starting position
    /// must name a known node, and state and strategy must be in bounds.
    /// A defect is fatal and reported, never worked around.
    pub fn new(state: State, nodes: NodeTable, relationships: Relationships, algorithm: A) -> (r:
        Result<Maximizer<A>, ConfigError>)
        ensures
            match r {
                Ok(m) => m.state == state && m.nodes == nodes && m.relationships == relationships
                    && m.algorithm == algorithm && m.wf(),
                Err(e) => match e {
                    ConfigError::InvalidNodes => !nodes_wf(nodes@),
                    ConfigError::InvalidGraph => !crate::graphs::rels_closed(
                        relationships@,
                        nodes@,
                    ),
                    ConfigError::MissingStartingNode => table_get(
                        nodes@,
                        state@.current_company,
                    ) is None,
                    ConfigError::InvalidState => !state_wf(state@),
                    ConfigError::InvalidStrategy => !algorithm.wf(),
                },
            },
    {
        if !nodes.check_wf() {
            return Err(ConfigError::InvalidNodes);
        }
        if !relationships.closed_under(&nodes) {
            return Err(ConfigError::InvalidGraph);
        }
        if nodes.get(&state.current_company).is_none() {
            return Err(ConfigError::MissingStartingNode);
        }
        if !state.check_wf() {
            return Err(ConfigError::InvalidState);
        }
        if !algorithm.check_wf() {
            return Err(ConfigError::InvalidStrategy);
        }
        Ok(Maximizer { state, nodes, relationships, algorithm })
    }

    /// The driver-level collect decision for entering `company_name`; see
    /// [`spec_collect_here`].
    pub fn collect_here(&self, company_name: &String) -> (b: bool)
        requires
            self.wf(),
            table_get(self.nodes@, company_name@) is Some,
        ensures
            b == spec_collect_here(self.algorithm, company_name@, self.state@, self.nodes@),
    {
        !self.state.collected_at(company_name) && self.algorithm.should_collect(company_name, self)
    }

    /// One selection round: score every outgoing path of the current
    /// position and pick per [`spec_max_score_collect`]. The returned
    /// path is a value copy, well-formed and resolvable.
    pub fn max_score_collect(&self) -> (r: Option<Path>)
        requires
            self.wf(),
            self.state@.time_left > 0,
        ensures
            match r {
                Some(p) => spec_max_score_collect(
                    self.algorithm,
                    self.nodes@,
                    self.relationships@,
                    self.state@,
                ) == Some(p@) && path_wf(p@) && table_get(self.nodes@, p@.to) is Some,
                None => spec_max_score_collect(
                    self.algorithm,
                    self.nodes@,
                    self.relationships@,
                    self.state@,
                ) is None,
            },
    {
        let ghost pathsv = paths_of(self.relationships@, self.state@.current_company);
        match self.relationships.get(&self.state.current_company) {
            None => {
                proof {
                    assert(pathsv.len() == 0);
                }
                None
            },
            Some(rel) => {
                let ghost k: int;
                proof {
                    assert(pathsv == rel@);
                    lemma_rels_get_from(self.relationships@, self.state@.current_company, 0);
                    k = choose|k: int|
                        0 <= k < self.relationships@.len() && self.relationships@[k].company
                            == self.state@.current_company && self.relationships@[k].paths
                            == pathsv;
                    assert forall|j: int| 0 <= j < pathsv.len() implies path_wf(#[trigger] pathsv[j])
                        && table_get(self.nodes@, pathsv[j].to) is Some by {
                        assert(path_wf(self.relationships@[k].paths[j]) && table_get(
                            self.nodes@,
                            self.relationships@[k].paths[j].to,
                        ) is Some);
                    }
                }
                let m = rel.paths.len();
                if m == 0 {
                    proof {
                        assert(pathsv.len() == 0);
                    }
                    return None;
                }
                let mut best: Option<usize> = None;
                let mut best_score = Score::zero();
                let mut i: usize = 0;
                while i < m
                    invariant
                        self.wf(),
                        self.state@.time_left > 0,
                        m == rel.paths.len(),
                        rel@ == pathsv,
                        pathsv == paths_of(self.relationships@, self.state@.current_company),
                        forall|j: int|
                            0 <= j < pathsv.len() ==> path_wf(#[trigger] pathsv[j]) && table_get(
                                self.nodes@,
                                pathsv[j].to,
                            ) is Some,
                        0 <= i <= m,
                        score_wf(best_score@),
                        match best {
                            Some(b) => 0 <= b < i && pathsv[b as int].to
                                != self.state@.current_company,
                            None => best_score@ == (ScoreV { num: 0, den: 1 }),
                        },
                        spec_select(
                            self.algorithm,
                            self.nodes@,
                            self.relationships@,
                            self.state@,
                            pathsv,
                            0,
                            None,
                        ) == spec_select(
                            self.algorithm,
                            self.nodes@,
                            self.relationships@,
                            self.state@,
                            pathsv,
                            i as int,
                            match best {
                                Some(b) => Some((b as int, best_score@)),
                                None => None,
                            },
                        ),
                    decreases m - i,
                {
                    proof {
                        assert(pathsv[i as int] == rel.paths@[i as int]@);
                    }
                    let ghost prev_best: Option<(int, ScoreV)> = match best {
                        Some(b) => Some((b as int, best_score@)),
                        None => None,
                    };
                    let path = &rel.paths[i];
                    if !(path.to == self.state.current_company) {
                        let sc = self.algorithm.path_score(path, self);
                        if sc.gt(&best_score) {
                            best = Some(i);
                            best_score = sc;
                        }
                    }
                    proof {
                        let cur_best: Option<(int, ScoreV)> = match best {
                            Some(b) => Some((b as int, best_score@)),
                            None => None,
                        };
                        assert(spec_select(
                            self.algorithm,
                            self.nodes@,
                            self.relationships@,
                            self.state@,
                            pathsv,
                            i as int,
                            prev_best,
                        ) == spec_select(
                            self.algorithm,
                            self.nodes@,
                            self.relationships@,
                            self.state@,
                            pathsv,
                            i as int + 1,
                            cur_best,
                        ));
                    }
                    i = i + 1;
                }
                match best {
                    Some(b) => {
                        proof {
                            assert(pathsv[b as int] == rel.paths@[b as int]@);
                        }
                        Some(rel.paths[b].duplicate())
                    },
                    None => {
                        proof {
                            assert(pathsv[0] == rel.paths@[0]@);
                        }
                        Some(rel.paths[0].duplicate())
                    },
                }
            },
        }
    }

    /// Apply a chosen path to the real state, with the driver-level
    /// collect decision for its destination.
    pub fn goto(&mut self, path: Path)
        requires
            old(self).wf(),
            path_wf(path@),
            table_get(old(self).nodes@, path@.to) is Some,
            path@.to != old(self).state@.current_company,
            old(self).state@.time_left > 0,
        ensures
            final(self).nodes == old(self).nodes,
            final(self).relationships == old(self).relationships,
            final(self).algorithm == old(self).algorithm,
            final(self).state@ == spec_goto(
                old(self).state@,
                path@,
                table_get(old(self).nodes@, path@.to)->0,
                spec_collect_here(
                    old(self).algorithm,
                    path@.to,
                    old(self).state@,
                    old(self).nodes@,
                ),
            ),
            final(self).wf(),
            final(self).state@.time_left < old(self).state@.time_left,
    {
        let coll = self.collect_here(&path.to);
        self.state.goto(&path, &self.nodes, coll);
        proof {
            crate::node::lemma_table_get(self.nodes@, path@.to);
        }
    }

    /// Run the greedy step loop to completion: force-collect the starting
    /// node, then follow the best-scoring path until the budget reaches
    /// zero. Fails with [`SearchError::NoViablePath`], leaving the state
    /// at the stall, when some reached position has no outgoing path or
    /// only a path back to itself to fall back on; see [`spec_run`].
    pub fn collect(&mut self) -> (r: Result<(), SearchError>)
        requires
            old(self).wf(),
        ensures
            final(self).nodes == old(self).nodes,
            final(self).relationships == old(self).relationships,
            final(self).algorithm == old(self).algorithm,
            final(self).wf(),
            ({
                let outcome = spec_run(
                    old(self).algorithm,
                    old(self).nodes@,
                    old(self).relationships@,
                    spec_prepare(old(self).algorithm, old(self).nodes@, old(self).state@),
                );
                match outcome {
                    Ok(sv) => r is Ok && final(self).state@ == sv,
                    Err(sv) => r == Err::<(), SearchError>(SearchError::NoViablePath)
                        && final(self).state@ == sv,
                }
            }),
    {
        let ghost sp = spec_prepare(old(self).algorithm, old(self).nodes@, old(self).state@);
        let coll = self.collect_here(&self.state.current_company);
        let cname = self.state.current_company.clone();
        self.state.last_companies.push(Action { company: cname, collected: coll });
        proof {
            assert(self.state@.last_companies =~= old(self).state@.last_companies.push(
                ActionV { company: old(self).state@.current_company, collected: coll },
            ));
        }
        if coll {
            match self.nodes.get(&self.state.current_company) {
                Some(node) => {
                    proof {
                        crate::node::lemma_table_get(self.nodes@, self.state@.current_company);
                    }
                    self.state.force_collect(node);
                },
                None => {},
            }
        }
        proof {
            assert(self.state@ =~= sp);
        }
        while self.state.time_left > 0
            invariant
                self.wf(),
                self.nodes == old(self).nodes,
                self.relationships == old(self).relationships,
                self.algorithm == old(self).algorithm,
                sp == spec_prepare(old(self).algorithm, old(self).nodes@, old(self).state@),
                spec_run(self.algorithm, self.nodes@, self.relationships@, self.state@) == spec_run(
                    old(self).algorithm,
                    old(self).nodes@,
                    old(self).relationships@,
                    sp,
                ),
            decreases self.state@.time_left,
        {
            let ghost pre = self.state@;
            let chosen = match self.max_score_collect() {
                Some(p) => p,
                None => {
                    proof {
                        assert(spec_run(self.algorithm, self.nodes@, self.relationships@, pre)
                            == Err::<StateV, StateV>(pre));
                        assert(spec_run(
                            old(self).algorithm,
                            old(self).nodes@,
                            old(self).relationships@,
                            sp,
                        ) == Err::<StateV, StateV>(self.state@));
                    }
                    return Err(SearchError::NoViablePath);
                },
            };
            if chosen.to == self.state.current_company {
                proof {
                    assert(spec_max_score_collect(
                        self.algorithm,
                        self.nodes@,
                        self.relationships@,
                        pre,
                    ) == Some(chosen@));
                    assert(spec_run(self.algorithm, self.nodes@, self.relationships@, pre)
                        == Err::<StateV, StateV>(pre));
                }
                return Err(SearchError::NoViablePath);
            }
            self.goto(chosen);
            proof {
                assert(spec_run(self.algorithm, self.nodes@, self.relationships@, pre)
                    == spec_run(self.algorithm, self.nodes@, self.relationships@, self.state@));
            }
        }
        Ok(())
    }
}

} // verus!
