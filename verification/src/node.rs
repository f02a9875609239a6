//! Graph vertices. A node carries a collectible `value` and an intrinsic
//! `cost` that is paid when the value is collected. Nodes are ranked by
//! their value density (`value / cost`); densities are compared exactly as
//! rationals, by cross-multiplication, so no division is ever performed.

use vstd::prelude::*;

verus! {

/// Mathematical model of a node.
pub struct NodeV {
    pub name: Seq<char>,
    pub value: int,
    pub cost: int,
}

/// A graph vertex with a collectible reward (`value`) and the intrinsic
/// cost of collecting it (`cost`). Immutable after graph construction.
pub struct Node {
    pub name: String,
    pub value: i64,
    pub cost: i64,
}

impl View for Node {
    type V = NodeV;

    open spec fn view(&self) -> NodeV {
        NodeV { name: self.name@, value: self.value as int, cost: self.cost as int }
    }
}

/// A well-formed node has a non-negative value and a positive cost, both
/// small enough that every sum and product the traversal forms fits in the
/// machine integers it uses.
pub open spec fn node_wf(n: NodeV) -> bool {
    &&& 0 <= n.value <= i32::MAX as int
    &&& 1 <= n.cost <= i32::MAX as int
}

/// The node's value density is at least `num / den`:
/// `value / cost >= num / den`, stated without division.
pub open spec fn density_at_least(n: NodeV, num: int, den: int) -> bool {
    n.value * den >= num * n.cost
}

/// The node's value density is strictly above `num / den`.
pub open spec fn density_above(n: NodeV, num: int, den: int) -> bool {
    n.value * den > num * n.cost
}

/// Bounds on a density threshold under which the cross-multiplied
/// comparison fits in an `i64`.
pub open spec fn threshold_wf(num: int, den: int) -> bool {
    &&& 0 <= num <= i32::MAX as int
    &&& 1 <= den <= i32::MAX as int
}

impl Node {
    pub fn new(name: String, value: i64, cost: i64) -> (n: Node)
        requires
            0 <= value <= i32::MAX as i64,
            1 <= cost <= i32::MAX as i64,
        ensures
            n.name == name,
            n.value == value,
            n.cost == cost,
            node_wf(n@),
    {
        Node { name, value, cost }
    }

    /// An explicit value copy; the copy is indistinguishable from the
    /// original.
    pub fn duplicate(&self) -> (n: Node)
        ensures
            n == *self,
    {
        Node { name: self.name.clone(), value: self.value, cost: self.cost }
    }

    /// Whether `value / cost >= num / den`, decided exactly over integers.
    pub fn density_at_least(&self, num: i64, den: i64) -> (b: bool)
        requires
            node_wf(self@),
            threshold_wf(num as int, den as int),
        ensures
            b == density_at_least(self@, num as int, den as int),
    {
        proof {
            assert(self.value * den <= i32::MAX as int * i32::MAX as int
                && num * self.cost <= i32::MAX as int * i32::MAX as int
                && self.value * den >= 0 && num * self.cost >= 0) by (nonlinear_arith)
                requires
                    0 <= self.value <= i32::MAX as int,
                    1 <= self.cost <= i32::MAX as int,
                    0 <= num <= i32::MAX as int,
                    1 <= den <= i32::MAX as int,
            ;
        }
        self.value * den >= num * self.cost
    }

    /// Whether `value / cost > num / den`, decided exactly over integers.
    pub fn density_above(&self, num: i64, den: i64) -> (b: bool)
        requires
            node_wf(self@),
            threshold_wf(num as int, den as int),
        ensures
            b == density_above(self@, num as int, den as int),
    {
        proof {
            assert(self.value * den <= i32::MAX as int * i32::MAX as int
                && num * self.cost <= i32::MAX as int * i32::MAX as int
                && self.value * den >= 0 && num * self.cost >= 0) by (nonlinear_arith)
                requires
                    0 <= self.value <= i32::MAX as int,
                    1 <= self.cost <= i32::MAX as int,
                    0 <= num <= i32::MAX as int,
                    1 <= den <= i32::MAX as int,
            ;
        }
        self.value * den > num * self.cost
    }
}

/// The node map: a name-keyed table of nodes, built once during graph
/// construction and read-only afterwards. Names are unique.
pub struct NodeTable {
    pub entries: Vec<Node>,
}

impl View for NodeTable {
    type V = Seq<NodeV>;

    open spec fn view(&self) -> Seq<NodeV> {
        self.entries@.map(|i: int, n: Node| n@)
    }
}

/// Lookup by name in the suffix of `nodes` that starts at `i`: the first
/// entry with that name, if any.
pub open spec fn table_get_from(nodes: Seq<NodeV>, name: Seq<char>, i: int) -> Option<NodeV>
    decreases nodes.len() - i,
{
    if i < 0 || i >= nodes.len() {
        None
    } else if nodes[i].name == name {
        Some(nodes[i])
    } else {
        table_get_from(nodes, name, i + 1)
    }
}

/// Lookup by name: the first entry with that name, if any.
pub open spec fn table_get(nodes: Seq<NodeV>, name: Seq<char>) -> Option<NodeV> {
    table_get_from(nodes, name, 0)
}

/// No two entries share a name.
pub open spec fn names_unique(nodes: Seq<NodeV>) -> bool {
    forall|i: int, j: int| 0 <= i < j < nodes.len() ==> nodes[i].name != nodes[j].name
}

/// A well-formed node table: unique names, every node well-formed.
pub open spec fn nodes_wf(nodes: Seq<NodeV>) -> bool {
    &&& names_unique(nodes)
    &&& forall|i: int| 0 <= i < nodes.len() ==> node_wf(#[trigger] nodes[i])
}

/// A successful lookup returns an entry of the table bearing the searched
/// name; a failed lookup means no entry bears it.
pub proof fn lemma_table_get_from(nodes: Seq<NodeV>, name: Seq<char>, i: int)
    requires
        0 <= i <= nodes.len(),
    ensures
        match table_get_from(nodes, name, i) {
            Some(n) => exists|k: int| i <= k < nodes.len() && nodes[k] == n && n.name == name,
            None => forall|k: int| i <= k < nodes.len() ==> (#[trigger] nodes[k]).name != name,
        },
    decreases nodes.len() - i,
{
    if i < nodes.len() && nodes[i].name != name {
        lemma_table_get_from(nodes, name, i + 1);
    }
}

/// `table_get` restated over the whole table.
pub proof fn lemma_table_get(nodes: Seq<NodeV>, name: Seq<char>)
    ensures
        match table_get(nodes, name) {
            Some(n) => exists|k: int| 0 <= k < nodes.len() && nodes[k] == n && n.name == name,
            None => forall|k: int| 0 <= k < nodes.len() ==> (#[trigger] nodes[k]).name != name,
        },
{
    lemma_table_get_from(nodes, name, 0);
}

impl NodeTable {
    pub fn new() -> (t: NodeTable)
        ensures
            t@ == Seq::<NodeV>::empty(),
            nodes_wf(t@),
    {
        let t = NodeTable { entries: Vec::new() };
        proof {
            assert(t@ =~= Seq::<NodeV>::empty());
        }
        t
    }

    /// Look a node up by name; the first (and, in a well-formed table,
    /// only) entry with that name.
    pub fn get(&self, name: &String) -> (r: Option<&Node>)
        ensures
            match r {
                Some(n) => table_get(self@, name@) == Some(n@),
                None => table_get(self@, name@) is None,
            },
    {
        let n = self.entries.len();
        let mut i: usize = 0;
        while i < n
            invariant
                n == self.entries.len(),
                0 <= i <= n,
                table_get(self@, name@) == table_get_from(self@, name@, i as int),
            decreases n - i,
        {
            proof {
                assert(self@[i as int] == self.entries@[i as int]@);
            }
            if self.entries[i].name == *name {
                return Some(&self.entries[i]);
            }
            i = i + 1;
        }
        None
    }

    /// Whether the table holds a node of this name.
    pub fn contains_name(&self, name: &String) -> (b: bool)
        ensures
            b == table_get(self@, name@) is Some,
    {
        self.get(name).is_some()
    }

    /// Add a node, unless its name is already taken; reports whether the
    /// node was added.
    pub fn insert(&mut self, node: Node) -> (added: bool)
        ensures
            added == (table_get(old(self)@, node@.name) is None),
            added ==> final(self)@ == old(self)@.push(node@),
            !added ==> final(self)@ == old(self)@,
            nodes_wf(old(self)@) && node_wf(node@) ==> nodes_wf(final(self)@),
    {
        if self.get(&node.name).is_some() {
            return false;
        }
        proof {
            lemma_table_get(self@, node@.name);
        }
        let ghost prev = self@;
        self.entries.push(node);
        proof {
            assert(self@ =~= prev.push(self.entries@[prev.len() as int]@));
        }
        true
    }

    /// Whether the table is well-formed: unique names, every node within
    /// bounds. Graph construction runs this check so that a malformed
    /// configuration is rejected before a traversal starts.
    pub fn check_wf(&self) -> (b: bool)
        ensures
            b == nodes_wf(self@),
    {
        let n = self.entries.len();
        let mut i: usize = 0;
        while i < n
            invariant
                n == self.entries.len(),
                0 <= i <= n,
                forall|x: int| 0 <= x < i ==> node_wf(#[trigger] self@[x]),
                forall|x: int, y: int| 0 <= x < y < i ==> self@[x].name != self@[y].name,
            decreases n - i,
        {
            proof {
                assert(self@[i as int] == self.entries@[i as int]@);
            }
            let node = &self.entries[i];
            if !(0 <= node.value && node.value <= i32::MAX as i64 && 1 <= node.cost && node.cost
                <= i32::MAX as i64) {
                proof {
                    assert(!node_wf(self@[i as int]));
                    assert(!nodes_wf(self@));
                }
                return false;
            }
            let mut j: usize = 0;
            while j < i
                invariant
                    n == self.entries.len(),
                    0 <= j <= i < n,
                    forall|x: int| 0 <= x < j ==> self@[x].name != self@[i as int].name,
                decreases i - j,
            {
                proof {
                    assert(self@[j as int] == self.entries@[j as int]@);
                }
                if self.entries[j].name == self.entries[i].name {
                    proof {
                        assert(self@[j as int].name == self@[i as int].name);
                        assert(!names_unique(self@));
                    }
                    return false;
                }
                j = j + 1;
            }
            i = i + 1;
        }
        true
    }

    /// The number of nodes in the table.
    pub fn len(&self) -> (n: usize)
        ensures
            n == self@.len(),
    {
        self.entries.len()
    }
}

} // verus!
