//! Directed weighted edges. A path names its destination and carries the
//! travel cost of following it; the origin is implicit in the adjacency
//! table that holds the path.

use vstd::prelude::*;

verus! {

/// Mathematical model of a path.
pub struct PathV {
    pub to: Seq<char>,
    pub cost: int,
}

/// A directed edge `-> to` with a travel cost, independent of the
/// destination node's own cost. Immutable.
pub struct Path {
    pub to: String,
    pub cost: i64,
}

impl View for Path {
    type V = PathV;

    open spec fn view(&self) -> PathV {
        PathV { to: self.to@, cost: self.cost as int }
    }
}

/// A well-formed path has a positive travel cost: following an edge always
/// consumes budget, which is what makes every run finite.
pub open spec fn path_wf(p: PathV) -> bool {
    1 <= p.cost <= i32::MAX as int
}

impl Path {
    pub fn new(to: String, cost: i64) -> (p: Path)
        requires
            1 <= cost <= i32::MAX as i64,
        ensures
            p.to == to,
            p.cost == cost,
            path_wf(p@),
    {
        Path { to, cost }
    }

    /// An explicit value copy; the copy is indistinguishable from the
    /// original.
    pub fn duplicate(&self) -> (p: Path)
        ensures
            p == *self,
    {
        Path { to: self.to.clone(), cost: self.cost }
    }
}

} // verus!
