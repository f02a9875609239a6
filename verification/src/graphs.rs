//! The adjacency side of the graph: each node name maps to the ordered
//! list of its outgoing paths. Built once from externally loaded data and
//! read-only for the lifetime of a run.

use vstd::prelude::*;
use crate::node::{NodeTable, NodeV, table_get};
use crate::path::{Path, PathV, path_wf};

verus! {

/// The outgoing paths of one node, in the order the graph source listed
/// them.
pub struct Relationship {
    pub paths: Vec<Path>,
}

impl View for Relationship {
    type V = Seq<PathV>;

    open spec fn view(&self) -> Seq<PathV> {
        self.paths@.map(|i: int, p: Path| p@)
    }
}

impl Relationship {
    pub fn new(paths: Vec<Path>) -> (r: Relationship)
        ensures
            r.paths == paths,
    {
        Relationship { paths }
    }

    /// An explicit value copy; the copy's paths are the same sequence.
    pub fn duplicate(&self) -> (r: Relationship)
        ensures
            r@ == self@,
    {
        let n = self.paths.len();
        let mut paths: Vec<Path> = Vec::new();
        let mut i: usize = 0;
        while i < n
            invariant
                n == self.paths.len(),
                0 <= i <= n,
                paths@.len() == i,
                forall|k: int| 0 <= k < i ==> paths@[k] == self.paths@[k],
            decreases n - i,
        {
            paths.push(self.paths[i].duplicate());
            i = i + 1;
        }
        let r = Relationship { paths };
        proof {
            assert(r@ =~= self@);
        }
        r
    }
}

/// Mathematical model of one adjacency entry.
pub struct RelEntryV {
    pub company: Seq<char>,
    pub paths: Seq<PathV>,
}

/// One adjacency entry: a node name and its outgoing paths.
pub struct RelEntry {
    pub company: String,
    pub rel: Relationship,
}

impl View for RelEntry {
    type V = RelEntryV;

    open spec fn view(&self) -> RelEntryV {
        RelEntryV { company: self.company@, paths: self.rel@ }
    }
}

/// The adjacency table: node name to outgoing paths. Names are unique.
pub struct Relationships {
    pub entries: Vec<RelEntry>,
}

impl View for Relationships {
    type V = Seq<RelEntryV>;

    open spec fn view(&self) -> Seq<RelEntryV> {
        self.entries@.map(|i: int, e: RelEntry| e@)
    }
}

/// Lookup by name in the suffix of `rels` that starts at `i`: the paths of
/// the first entry with that name, if any.
pub open spec fn rels_get_from(rels: Seq<RelEntryV>, name: Seq<char>, i: int) -> Option<
    Seq<PathV>,
>
    decreases rels.len() - i,
{
    if i < 0 || i >= rels.len() {
        None
    } else if rels[i].company == name {
        Some(rels[i].paths)
    } else {
        rels_get_from(rels, name, i + 1)
    }
}

/// Lookup by name: the paths of the first entry with that name, if any.
pub open spec fn rels_get(rels: Seq<RelEntryV>, name: Seq<char>) -> Option<Seq<PathV>> {
    rels_get_from(rels, name, 0)
}

/// The outgoing paths of `name`, with a missing entry read as an empty
/// list.
pub open spec fn paths_of(rels: Seq<RelEntryV>, name: Seq<char>) -> Seq<PathV> {
    match rels_get(rels, name) {
        Some(paths) => paths,
        None => Seq::empty(),
    }
}

/// No two adjacency entries share a name.
pub open spec fn rel_names_unique(rels: Seq<RelEntryV>) -> bool {
    forall|i: int, j: int| 0 <= i < j < rels.len() ==> rels[i].company != rels[j].company
}

/// Every path of every entry is well-formed and leads to a node of the
/// table: the graph invariant that makes a lookup during a transition
/// infallible.
pub open spec fn rels_closed(rels: Seq<RelEntryV>, nodes: Seq<NodeV>) -> bool {
    forall|i: int, j: int|
        0 <= i < rels.len() && 0 <= j < rels[i].paths.len() ==> {
            &&& path_wf(#[trigger] rels[i].paths[j])
            &&& table_get(nodes, rels[i].paths[j].to) is Some
        }
}

/// A successful lookup returns the paths of an entry bearing the searched
/// name; a failed lookup means no entry bears it.
pub proof fn lemma_rels_get_from(rels: Seq<RelEntryV>, name: Seq<char>, i: int)
    requires
        0 <= i <= rels.len(),
    ensures
        match rels_get_from(rels, name, i) {
            Some(paths) => exists|k: int|
                i <= k < rels.len() && rels[k].company == name && rels[k].paths == paths,
            None => forall|k: int| i <= k < rels.len() ==> (#[trigger] rels[k]).company != name,
        },
    decreases rels.len() - i,
{
    if i < rels.len() && rels[i].company != name {
        lemma_rels_get_from(rels, name, i + 1);
    }
}

impl Relationships {
    pub fn new() -> (t: Relationships)
        ensures
            t@ == Seq::<RelEntryV>::empty(),
            rel_names_unique(t@),
    {
        let t = Relationships { entries: Vec::new() };
        proof {
            assert(t@ =~= Seq::<RelEntryV>::empty());
        }
        t
    }

    /// Look the outgoing paths of a node up by its name.
    pub fn get(&self, name: &String) -> (r: Option<&Relationship>)
        ensures
            match r {
                Some(rel) => rels_get(self@, name@) == Some(rel@),
                None => rels_get(self@, name@) is None,
            },
    {
        let n = self.entries.len();
        let mut i: usize = 0;
        while i < n
            invariant
                n == self.entries.len(),
                0 <= i <= n,
                rels_get(self@, name@) == rels_get_from(self@, name@, i as int),
            decreases n - i,
        {
            proof {
                assert(self@[i as int] == self.entries@[i as int]@);
            }
            if self.entries[i].company == *name {
                return Some(&self.entries[i].rel);
            }
            i = i + 1;
        }
        None
    }

    /// Add an adjacency entry, unless the name is already present; reports
    /// whether the entry was added.
    pub fn insert(&mut self, company: String, rel: Relationship) -> (added: bool)
        ensures
            added == (rels_get(old(self)@, company@) is None),
            added ==> final(self)@.len() == old(self)@.len() + 1 && final(self)@.last().company
                == company@ && final(self)@.last().paths == rel@ && forall|k: int|
                0 <= k < old(self)@.len() ==> final(self)@[k] == old(self)@[k],
            !added ==> final(self)@ == old(self)@,
            rel_names_unique(old(self)@) && added ==> rel_names_unique(final(self)@),
    {
        if self.get(&company).is_some() {
            return false;
        }
        proof {
            lemma_rels_get_from(self@, company@, 0);
        }
        let ghost prev = self@;
        self.entries.push(RelEntry { company, rel });
        proof {
            assert(self@ =~= prev.push(self.entries@[prev.len() as int]@));
        }
        true
    }

    /// Whether every path of every entry is well-formed and leads to a
    /// known node: the configuration check that graph construction runs
    /// before a traversal may start.
    pub fn closed_under(&self, nodes: &NodeTable) -> (b: bool)
        ensures
            b == rels_closed(self@, nodes@),
    {
        let n = self.entries.len();
        let mut i: usize = 0;
        while i < n
            invariant
                n == self.entries.len(),
                0 <= i <= n,
                forall|x: int, y: int|
                    0 <= x < i && 0 <= y < self@[x].paths.len() ==> {
                        &&& path_wf(#[trigger] self@[x].paths[y])
                        &&& table_get(nodes@, self@[x].paths[y].to) is Some
                    },
            decreases n - i,
        {
            proof {
                assert(self@[i as int] == self.entries@[i as int]@);
            }
            let paths = &self.entries[i].rel.paths;
            let m = paths.len();
            let mut j: usize = 0;
            while j < m
                invariant
                    n == self.entries.len(),
                    0 <= i < n,
                    m == paths.len(),
                    0 <= j <= m,
                    paths == &self.entries[i as int].rel.paths,
                    self@[i as int] == self.entries@[i as int]@,
                    forall|y: int|
                        0 <= y < j ==> {
                            &&& path_wf(#[trigger] self@[i as int].paths[y])
                            &&& table_get(nodes@, self@[i as int].paths[y].to) is Some
                        },
                decreases m - j,
            {
                proof {
                    assert(self@[i as int].paths[j as int] == paths@[j as int]@);
                }
                let p = &paths[j];
                if !(1 <= p.cost && p.cost <= i32::MAX as i64) {
                    return false;
                }
                if !nodes.contains_name(&p.to) {
                    return false;
                }
                j = j + 1;
            }
            i = i + 1;
        }
        true
    }
}

} // verus!
