//! Visit records: one immutable log entry per transition, recording which
//! node was entered and whether its value was collected there.

use vstd::prelude::*;

verus! {

/// Mathematical model of a visit record.
pub struct ActionV {
    pub company: Seq<char>,
    pub collected: bool,
}

/// One entry of the traversal state's visit log: the node that was entered
/// and whether its value was collected upon arrival.
pub struct Action {
    pub company: String,
    pub collected: bool,
}

impl View for Action {
    type V = ActionV;

    open spec fn view(&self) -> ActionV {
        ActionV { company: self.company@, collected: self.collected }
    }
}

impl Action {
    pub fn new(company: String, collected: bool) -> (a: Action)
        ensures
            a.company == company,
            a.collected == collected,
    {
        Action { company, collected }
    }

    /// An explicit value copy; the copy is indistinguishable from the
    /// original.
    pub fn duplicate(&self) -> (a: Action)
        ensures
            a == *self,
    {
        Action { company: self.company.clone(), collected: self.collected }
    }
}

} // verus!
