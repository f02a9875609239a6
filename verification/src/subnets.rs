//! An experimental clustering pass over the same node and path data the
//! traversal uses: it groups strongly-connected nodes into "subnets" and
//! offers lookups over the grouping. It is an optional analysis separate
//! from the traversal core.

use std::collections::HashMap;
use vstd::prelude::*;
use crate::graphs::{Relationship, Relationships, RelEntryV, paths_of, rels_get};
use crate::node::{Node, NodeTable, NodeV, nodes_wf, node_wf, table_get};
use crate::path::{Path, PathV};
use crate::score::{Score, score_wf};

verus! {

broadcast use vstd::std_specs::hash::group_hash_axioms;

/// Some node of `s` bears `name`.
pub open spec fn name_in(s: Seq<NodeV>, name: Seq<char>) -> bool {
    exists|i: int| 0 <= i < s.len() && s[i].name == name
}

/// `n` is one of the nodes of `s`.
pub open spec fn node_in(s: Seq<NodeV>, n: NodeV) -> bool {
    exists|i: int| 0 <= i < s.len() && s[i] == n
}

/// The deep view of a list of nodes.
pub open spec fn nodes_view(v: Seq<Node>) -> Seq<NodeV> {
    v.map(|i: int, n: Node| n@)
}

/// Whether list `v` holds a node equal to `n` in every field.
fn vec_has_node(v: &Vec<Node>, n: &Node) -> (b: bool)
    ensures
        b == node_in(nodes_view(v@), n@),
{
    let m = v.len();
    let mut i: usize = 0;
    while i < m
        invariant
            m == v.len(),
            0 <= i <= m,
            forall|k: int| 0 <= k < i ==> nodes_view(v@)[k] != n@,
        decreases m - i,
    {
        proof {
            assert(nodes_view(v@)[i as int] == v@[i as int]@);
        }
        if v[i].name == n.name && v[i].value == n.value && v[i].cost == n.cost {
            proof {
                assert(nodes_view(v@)[i as int] == n@);
            }
            return true;
        }
        i = i + 1;
    }
    false
}

/// Whether two node lists are equal element by element.
fn nodes_equal(a: &Vec<Node>, b: &Vec<Node>) -> (r: bool)
    ensures
        r == (nodes_view(a@) == nodes_view(b@)),
{
    let m = a.len();
    if m != b.len() {
        proof {
            assert(nodes_view(a@).len() != nodes_view(b@).len());
        }
        return false;
    }
    let mut i: usize = 0;
    while i < m
        invariant
            m == a.len() == b.len(),
            0 <= i <= m,
            forall|k: int| 0 <= k < i ==> nodes_view(a@)[k] == nodes_view(b@)[k],
        decreases m - i,
    {
        proof {
            assert(nodes_view(a@)[i as int] == a@[i as int]@);
            assert(nodes_view(b@)[i as int] == b@[i as int]@);
        }
        if !(a[i].name == b[i].name && a[i].value == b[i].value && a[i].cost == b[i].cost) {
            proof {
                assert(nodes_view(a@)[i as int] != nodes_view(b@)[i as int]);
            }
            return false;
        }
        i = i + 1;
    }
    proof {
        assert(nodes_view(a@) =~= nodes_view(b@));
    }
    true
}

/// A group of strongly-connected nodes.
pub struct Subnet {
    pub nodes: Vec<Node>,
}

impl View for Subnet {
    type V = Seq<NodeV>;

    open spec fn view(&self) -> Seq<NodeV> {
        nodes_view(self.nodes@)
    }
}

/// The running best-density scan over `s` from index `i`, carrying the
/// best density seen so far as the rational `bn / bd` and its index; the
/// scan starts from density zero and index zero, and only a strictly
/// better density moves the index, so ties keep the first.
pub open spec fn best_node_from(s: Seq<NodeV>, i: int, bn: int, bd: int, bi: int) -> int
    decreases s.len() - i,
{
    if i < 0 || i >= s.len() {
        bi
    } else if s[i].value * bd > bn * s[i].cost {
        best_node_from(s, i + 1, s[i].value, s[i].cost, i)
    } else {
        best_node_from(s, i + 1, bn, bd, bi)
    }
}

/// The index `best_node` picks: the first index of maximal value density
/// (index zero when every density is zero).
pub open spec fn spec_best_node_idx(s: Seq<NodeV>) -> int {
    best_node_from(s, 0, 0, 1, 0)
}

impl Subnet {
    /// A subnet over a copy of the given nodes.
    pub fn new(nodes: &Vec<Node>) -> (s: Subnet)
        ensures
            s@ == nodes_view(nodes@),
    {
        let m = nodes.len();
        let mut copy: Vec<Node> = Vec::new();
        let mut i: usize = 0;
        while i < m
            invariant
                m == nodes.len(),
                0 <= i <= m,
                copy@.len() == i,
                forall|k: int| 0 <= k < i ==> copy@[k] == nodes@[k],
            decreases m - i,
        {
            copy.push(nodes[i].duplicate());
            i = i + 1;
        }
        let s = Subnet { nodes: copy };
        proof {
            assert(s@ =~= nodes_view(nodes@));
        }
        s
    }

    /// Whether some node of the subnet bears `name`.
    pub fn has_name(&self, name: &String) -> (b: bool)
        ensures
            b == name_in(self@, name@),
    {
        let m = self.nodes.len();
        let mut i: usize = 0;
        while i < m
            invariant
                m == self.nodes.len(),
                0 <= i <= m,
                forall|k: int| 0 <= k < i ==> (#[trigger] self@[k]).name != name@,
            decreases m - i,
        {
            proof {
                assert(self@[i as int] == self.nodes@[i as int]@);
            }
            if self.nodes[i].name == *name {
                return true;
            }
            i = i + 1;
        }
        false
    }

    /// The subnet's best node: the first node of maximal value density.
    pub fn best_node(&self) -> (r: &Node)
        requires
            self@.len() > 0,
            forall|k: int| 0 <= k < self@.len() ==> node_wf(#[trigger] self@[k]),
        ensures
            r@ == self@[spec_best_node_idx(self@)],
            0 <= spec_best_node_idx(self@) < self@.len(),
    {
        let m = self.nodes.len();
        let mut best = Score::zero();
        let mut bi: usize = 0;
        let mut i: usize = 0;
        while i < m
            invariant
                m == self.nodes.len(),
                m == self@.len(),
                forall|k: int| 0 <= k < self@.len() ==> node_wf(#[trigger] self@[k]),
                0 <= i <= m,
                0 <= bi < m,
                score_wf(best@),
                best_node_from(self@, 0, 0, 1, 0) == best_node_from(
                    self@,
                    i as int,
                    best@.num,
                    best@.den,
                    bi as int,
                ),
            decreases m - i,
        {
            proof {
                assert(self@[i as int] == self.nodes@[i as int]@);
            }
            let cand = Score { num: self.nodes[i].value, den: self.nodes[i].cost };
            if cand.gt(&best) {
                best = cand;
                bi = i;
            }
            i = i + 1;
        }
        &self.nodes[bi]
    }
}

/// The grouping: a list of subnets.
pub struct Subnets {
    pub subnets: Vec<Subnet>,
}

impl View for Subnets {
    type V = Seq<Seq<NodeV>>;

    open spec fn view(&self) -> Seq<Seq<NodeV>> {
        self.subnets@.map(|i: int, s: Subnet| s@)
    }
}

/// The subnets other than `cur` (compared by their node lists), from
/// index `i` on, in order: the list that `neighbours` keys its result by.
pub open spec fn others_from(subs: Seq<Seq<NodeV>>, cur: Seq<NodeV>, i: int) -> Seq<Seq<NodeV>>
    decreases subs.len() - i,
{
    if i < 0 || i >= subs.len() {
        Seq::empty()
    } else if subs[i] == cur {
        others_from(subs, cur, i + 1)
    } else {
        seq![subs[i]] + others_from(subs, cur, i + 1)
    }
}

/// Among the first `xb` nodes of `sub`, some outgoing path leads to a
/// node name of `other`.
pub open spec fn connects_upto(
    sub: Seq<NodeV>,
    other: Seq<NodeV>,
    rels: Seq<RelEntryV>,
    xb: int,
) -> bool {
    exists|x: int, y: int|
        0 <= x < xb && 0 <= y < paths_of(rels, sub[x].name).len() && name_in(
            other,
            paths_of(rels, sub[x].name)[y].to,
        )
}

/// Some outgoing path of some node of `sub` leads into `other`.
pub open spec fn connects(sub: Seq<NodeV>, other: Seq<NodeV>, rels: Seq<RelEntryV>) -> bool {
    connects_upto(sub, other, rels, sub.len() as int)
}

/// Every listed path is an outgoing path of some node of `sub` and leads
/// to a node name of `other`: what the bridge `neighbours` reports
/// between two subnets consists of.
pub open spec fn bridge_paths_ok(
    ps: Seq<PathV>,
    sub: Seq<NodeV>,
    other: Seq<NodeV>,
    rels: Seq<RelEntryV>,
) -> bool {
    forall|y: int|
        0 <= y < ps.len() ==> {
            &&& exists|x: int, z: int|
                0 <= x < sub.len() && 0 <= z < paths_of(rels, sub[x].name).len() && (
                #[trigger] ps[y]) == paths_of(rels, sub[x].name)[z]
            &&& name_in(other, ps[y].to)
        }
}

/// The full `neighbours` contract over a result map: the keys index
/// exactly the other subnets that `sub` connects into, and each value is
/// a non-empty list of bridging paths.
pub open spec fn neighbours_ok(
    m: Map<usize, Relationship>,
    sub: Seq<NodeV>,
    subs: Seq<Seq<NodeV>>,
    rels: Seq<RelEntryV>,
) -> bool {
    let others = others_from(subs, sub, 0);
    &&& forall|i: usize|
        m.contains_key(i) <==> 0 <= i < others.len() && connects(sub, others[i as int], rels)
    &&& forall|i: usize|
        #[trigger] m.contains_key(i) ==> m[i]@.len() > 0 && bridge_paths_ok(
            m[i]@,
            sub,
            others[i as int],
            rels,
        )
}

impl Subnets {
    /// The subnet at `index`, if any.
    pub fn get_subnet(&self, index: usize) -> (r: Option<&Subnet>)
        ensures
            match r {
                Some(s) => index < self@.len() && s@ == self@[index as int],
                None => index >= self@.len(),
            },
    {
        if index < self.subnets.len() {
            proof {
                assert(self@[index as int] == self.subnets@[index as int]@);
            }
            Some(&self.subnets[index])
        } else {
            None
        }
    }

    /// The index of the first subnet that holds `node`, if any.
    pub fn get_subnet_from_node(&self, node: &Node) -> (r: Option<usize>)
        ensures
            match r {
                Some(i) => 0 <= i < self@.len() && node_in(self@[i as int], node@) && forall|j: int|
                    0 <= j < i ==> !node_in(#[trigger] self@[j], node@),
                None => forall|j: int| 0 <= j < self@.len() ==> !node_in(#[trigger] self@[j], node@),
            },
    {
        let m = self.subnets.len();
        let mut i: usize = 0;
        while i < m
            invariant
                m == self.subnets.len(),
                0 <= i <= m,
                forall|j: int| 0 <= j < i ==> !node_in(#[trigger] self@[j], node@),
            decreases m - i,
        {
            proof {
                assert(self@[i as int] == self.subnets@[i as int]@);
            }
            if vec_has_node(&self.subnets[i].nodes, node) {
                return Some(i);
            }
            i = i + 1;
        }
        None
    }

    /// The neighbours of the subnet that holds `node`; the grouping must
    /// hold the node somewhere, as the caller of this convenience lookup
    /// is expected to know.
    pub fn neigbours_from_node(&self, node: &Node, relations: &Relationships) -> (m: HashMap<
        usize,
        Relationship,
    >)
        requires
            exists|j: int| 0 <= j < self@.len() && node_in(#[trigger] self@[j], node@),
            forall|j: int, x: int|
                0 <= j < self@.len() && 0 <= x < self@[j].len() ==> rels_get(
                    relations@,
                    (#[trigger] self@[j][x]).name,
                ) is Some,
        ensures
            ({
                let j = choose|j: int|
                    0 <= j < self@.len() && node_in(#[trigger] self@[j], node@) && forall|k: int|
                        0 <= k < j ==> !node_in(#[trigger] self@[k], node@);
                neighbours_ok(m@, self@[j], self@, relations@)
            }),
    {
        let found = self.get_subnet_from_node(node);
        match found {
            Some(i) => {
                match self.get_subnet(i) {
                    Some(subnet) => {
                        let r = self.neighbours(subnet, relations);
                        proof {
                            let j = choose|j: int|
                                0 <= j < self@.len() && node_in(#[trigger] self@[j], node@)
                                    && forall|k: int|
                                    0 <= k < j ==> !node_in(#[trigger] self@[k], node@);
                            assert(j == i as int);
                        }
                        r
                    },
                    None => HashMap::new(),
                }
            },
            None => HashMap::new(),
        }
    }

    /// Build the grouping. The adjacency entries are scanned in order;
    /// for each node not yet placed whose two-hop neighbourhood comes
    /// back to itself and holds more than four nodes, a group is opened,
    /// seeded with the node and extended with every unplaced
    /// neighbourhood node that has at least four of its own paths back
    /// into that neighbourhood; the group's nodes are then marked placed.
    /// Every group is non-empty, every grouped node is an entry of the
    /// node table, and no node lands in two groups.
    #[verifier::loop_isolation(false)]
    pub fn new(relationships: &Relationships, nodes: &NodeTable) -> (r: Subnets)
        requires
            nodes_wf(nodes@),
            crate::graphs::rels_closed(relationships@, nodes@),
            forall|k: int|
                0 <= k < relationships@.len() ==> table_get(
                    nodes@,
                    (#[trigger] relationships@[k]).company,
                ) is Some,
            forall|k: int, j: int|
                0 <= k < relationships@.len() && 0 <= j < relationships@[k].paths.len()
                    ==> rels_get(
                    relationships@,
                    (#[trigger] relationships@[k].paths[j]).to,
                ) is Some,
        ensures
            forall|i: int| 0 <= i < r@.len() ==> (#[trigger] r@[i]).len() > 0,
            forall|i: int, x: int|
                0 <= i < r@.len() && 0 <= x < r@[i].len() ==> table_get(
                    nodes@,
                    (#[trigger] r@[i][x]).name,
                ) == Some(r@[i][x]),
            forall|i: int, j: int, x: int, y: int|
                0 <= i < j < r@.len() && 0 <= x < r@[i].len() && 0 <= y < r@[j].len() ==> (
                #[trigger] r@[i][x]) != (#[trigger] r@[j][y]),
    {
        let mut placed: Vec<Node> = Vec::new();
        let mut bucket: Vec<Subnet> = Vec::new();
        let ghost bv = Seq::<Seq<NodeV>>::empty();
        let nrel = relationships.entries.len();
        let mut k: usize = 0;
        while k < nrel
            invariant
                0 <= k <= nrel,
                bv == bucket@.map(|i: int, s: Subnet| s@),
                forall|i: int| 0 <= i < bv.len() ==> (#[trigger] bv[i]).len() > 0,
                forall|i: int, x: int|
                    0 <= i < bv.len() && 0 <= x < bv[i].len() ==> table_get(
                        nodes@,
                        (#[trigger] bv[i][x]).name,
                    ) == Some(bv[i][x]),
                forall|i: int, x: int|
                    0 <= i < bv.len() && 0 <= x < bv[i].len() ==> node_in(
                        nodes_view(placed@),
                        #[trigger] bv[i][x],
                    ),
                forall|i: int, j: int, x: int, y: int|
                    0 <= i < j < bv.len() && 0 <= x < bv[i].len() && 0 <= y < bv[j].len() ==> (
                    #[trigger] bv[i][x]) != (#[trigger] bv[j][y]),
            decreases nrel - k,
        {
            proof {
                assert(relationships@[k as int] == relationships.entries@[k as int]@);
            }
            let company = &relationships.entries[k].company;
            match nodes.get(company) {
                Some(node) => {
                    if !vec_has_node(&placed, node) {
                        let (two, all) = neighbors_2away(node, relationships, nodes);
                        if vec_has_node(&two, node) && two.len() > 4 {
                            proof {
                                crate::node::lemma_table_get(nodes@, company@);
                            }
                            let mut temp: Vec<Node> = Vec::new();
                            temp.push(node.duplicate());
                            proof {
                                assert(nodes_view(temp@) =~= Seq::<NodeV>::empty().push(node@));
                            }
                            let na = all.len();
                            let mut a: usize = 0;
                            while a < na
                                invariant
                                    0 <= a <= na,
                                    na == all.len(),
                                    nodes_view(temp@).len() > 0,
                                    all_from_table(nodes_view(all@), nodes@),
                                    forall|t: int|
                                        0 <= t < nodes_view(temp@).len() ==> table_get(
                                            nodes@,
                                            (#[trigger] nodes_view(temp@)[t]).name,
                                        ) == Some(nodes_view(temp@)[t]),
                                    forall|t: int|
                                        0 <= t < nodes_view(temp@).len() ==> !node_in(
                                            nodes_view(placed@),
                                            #[trigger] nodes_view(temp@)[t],
                                        ),
                                decreases na - a,
                            {
                                proof {
                                    assert(nodes_view(all@)[a as int] == all@[a as int]@);
                                }
                                let n = &all[a];
                                let same = n.name == node.name && n.value == node.value && n.cost
                                    == node.cost;
                                if !same && !vec_has_node(&placed, n) {
                                    match relationships.get(&n.name) {
                                        Some(to) => {
                                            let mut found: usize = 0;
                                            let np = to.paths.len();
                                            let mut p: usize = 0;
                                            while p < np && found < 4
                                                invariant
                                                    0 <= p <= np,
                                                    np == to.paths.len(),
                                                    0 <= found <= 4,
                                                decreases np - p,
                                            {
                                                match nodes.get(&to.paths[p].to) {
                                                    Some(d) => {
                                                        if vec_has_node(&two, d) {
                                                            found = found + 1;
                                                        }
                                                    },
                                                    None => {},
                                                }
                                                p = p + 1;
                                            }
                                            if found == 4 {
                                                let ghost pre = nodes_view(temp@);
                                                temp.push(n.duplicate());
                                                proof {
                                                    assert(nodes_view(temp@) =~= pre.push(n@));
                                                }
                                            }
                                        },
                                        None => {},
                                    }
                                }
                                a = a + 1;
                            }
                            proof {
                                assert forall|i: int, x: int, t: int|
                                    0 <= i < bv.len() && 0 <= x < bv[i].len() && 0 <= t
                                        < nodes_view(temp@).len() implies (#[trigger] bv[i][x]) != (
                                #[trigger] nodes_view(temp@)[t]) by {
                                    assert(node_in(nodes_view(placed@), bv[i][x]));
                                    assert(!node_in(nodes_view(placed@), nodes_view(temp@)[t]));
                                }
                            }
                            let nt = temp.len();
                            let mut t: usize = 0;
                            while t < nt
                                invariant
                                    0 <= t <= nt,
                                    nt == temp.len(),
                                    forall|q: int|
                                        0 <= q < t ==> node_in(
                                            nodes_view(placed@),
                                            #[trigger] nodes_view(temp@)[q],
                                        ),
                                    forall|i: int, x: int|
                                        0 <= i < bv.len() && 0 <= x < bv[i].len() ==> node_in(
                                            nodes_view(placed@),
                                            #[trigger] bv[i][x],
                                        ),
                                decreases nt - t,
                            {
                                proof {
                                    assert(nodes_view(temp@)[t as int] == temp@[t as int]@);
                                }
                                let ghost prev = nodes_view(placed@);
                                placed.push(temp[t].duplicate());
                                proof {
                                    assert(nodes_view(placed@) =~= prev.push(temp@[t as int]@));
                                    assert forall|m: NodeV| node_in(prev, m) implies node_in(
                                        nodes_view(placed@),
                                        m,
                                    ) by {
                                        let w = choose|w: int| 0 <= w < prev.len() && prev[w] == m;
                                        assert(nodes_view(placed@)[w] == m);
                                    }
                                    assert(nodes_view(placed@)[prev.len() as int] == temp@[
                                        t as int]@);
                                }
                                t = t + 1;
                            }
                            let ghost tempv = nodes_view(temp@);
                            bucket.push(Subnet { nodes: temp });
                            proof {
                                bv = bv.push(tempv);
                                assert(bv =~= bucket@.map(|i: int, s: Subnet| s@));
                            }
                        }
                    }
                },
                None => {},
            }
            k = k + 1;
        }
        let r = Subnets { subnets: bucket };
        proof {
            assert(r@ == bv);
        }
        r
    }

    /// The neighbours of `subnet` within the grouping: for every other
    /// subnet (in grouping order, the subnet itself excluded by node-list
    /// equality), the paths that lead from a node of `subnet` to a node
    /// of that subnet, keyed by the other subnet's position in that
    /// excluded-order listing, entered only where at least one such path
    /// exists.
    #[verifier::loop_isolation(false)]
    pub fn neighbours(&self, subnet: &Subnet, relationships: &Relationships) -> (m: HashMap<
        usize,
        Relationship,
    >)
        requires
            forall|x: int|
                0 <= x < subnet@.len() ==> rels_get(
                    relationships@,
                    (#[trigger] subnet@[x]).name,
                ) is Some,
        ensures
            neighbours_ok(m@, subnet@, self@, relationships@),
    {
        let mut neighbours_map: HashMap<usize, Relationship> = HashMap::new();
        let n = self.subnets.len();
        let mut s: usize = 0;
        let mut fi: usize = 0;
        let ghost others = others_from(self@, subnet@, 0);
        while s < n
            invariant
                0 <= s <= n,
                0 <= fi <= s,
                fi as int == others.len() - others_from(self@, subnet@, s as int).len(),
                others == others_from(self@, subnet@, 0).subrange(0, fi as int) + others_from(
                    self@,
                    subnet@,
                    s as int,
                ),
                forall|i: usize|
                    neighbours_map@.contains_key(i) <==> 0 <= i < fi && connects(
                        subnet@,
                        others[i as int],
                        relationships@,
                    ),
                forall|i: usize|
                    #[trigger] neighbours_map@.contains_key(i) ==> neighbours_map@[i]@.len() > 0
                        && bridge_paths_ok(
                        neighbours_map@[i]@,
                        subnet@,
                        others[i as int],
                        relationships@,
                    ),
            decreases n - s,
        {
            proof {
                assert(self@[s as int] == self.subnets@[s as int]@);
            }
            let other = &self.subnets[s];
            if !nodes_equal(&other.nodes, &subnet.nodes) {
                proof {
                    assert(others_from(self@, subnet@, s as int) == seq![self@[s as int]]
                        + others_from(self@, subnet@, s as int + 1));
                    assert(others[fi as int] == other@);
                }
                let found = bridging_paths(subnet, other, relationships);
                if found.len() > 0 {
                    neighbours_map.insert(fi, Relationship::new(found));
                }
                fi = fi + 1;
                proof {
                    assert(others =~= others_from(self@, subnet@, 0).subrange(0, fi as int)
                        + others_from(self@, subnet@, s as int + 1));
                }
            } else {
                proof {
                    assert(others_from(self@, subnet@, s as int) == others_from(
                        self@,
                        subnet@,
                        s as int + 1,
                    ));
                }
            }
            s = s + 1;
        }
        neighbours_map
    }
}

/// Every node of `v` is an entry of the node table, under its own name:
/// the canonical form in which the clustering constructor keeps every
/// node it gathers.
pub open spec fn all_from_table(v: Seq<NodeV>, nodes: Seq<NodeV>) -> bool {
    forall|q: int| 0 <= q < v.len() ==> table_get(nodes, (#[trigger] v[q]).name) == Some(v[q])
}

/// Append `n` unless an equal node is already listed.
fn push_unique(v: &mut Vec<Node>, n: &Node)
    ensures
        node_in(nodes_view(final(v)@), n@),
        nodes_view(final(v)@) == nodes_view(old(v)@) || nodes_view(final(v)@) == nodes_view(
            old(v)@,
        ).push(n@),
{
    if !vec_has_node(v, n) {
        let ghost pre = nodes_view(v@);
        v.push(n.duplicate());
        proof {
            assert(nodes_view(v@) =~= pre.push(n@));
            assert(nodes_view(v@)[pre.len() as int] == n@);
        }
    }
}

/// The nodes exactly two hops out from `from`, and the nodes at most two
/// hops out, each list free of duplicates. A helper of the clustering
/// constructor.
#[verifier::loop_isolation(false)]
fn neighbors_2away(from: &Node, relationships: &Relationships, nodes: &NodeTable) -> (r: (
    Vec<Node>,
    Vec<Node>,
))
    requires
        nodes_wf(nodes@),
        crate::graphs::rels_closed(relationships@, nodes@),
        forall|k: int, j: int|
            0 <= k < relationships@.len() && 0 <= j < relationships@[k].paths.len() ==> rels_get(
                relationships@,
                (#[trigger] relationships@[k].paths[j]).to,
            ) is Some,
    ensures
        all_from_table(nodes_view(r.0@), nodes@),
        all_from_table(nodes_view(r.1@), nodes@),
{
    let mut two: Vec<Node> = Vec::new();
    let mut all: Vec<Node> = Vec::new();
    match relationships.get(&from.name) {
        Some(rel) => {
            let ghost k1: int;
            proof {
                crate::graphs::lemma_rels_get_from(relationships@, from@.name, 0);
                k1 = choose|k: int|
                    0 <= k < relationships@.len() && relationships@[k].company == from@.name
                        && relationships@[k].paths == rel@;
                assert forall|j: int| 0 <= j < rel@.len() implies table_get(
                    nodes@,
                    (#[trigger] rel@[j]).to,
                ) is Some && rels_get(relationships@, rel@[j].to) is Some by {
                    assert(table_get(nodes@, relationships@[k1].paths[j].to) is Some);
                    assert(rels_get(relationships@, relationships@[k1].paths[j].to) is Some);
                }
            }
            let na = rel.paths.len();
            let mut a: usize = 0;
            while a < na
                invariant
                    0 <= a <= na,
                    na == rel.paths.len(),
                    all_from_table(nodes_view(two@), nodes@),
                    all_from_table(nodes_view(all@), nodes@),
                decreases na - a,
            {
                proof {
                    assert(rel@[a as int] == rel.paths@[a as int]@);
                }
                match nodes.get(&rel.paths[a].to) {
                    Some(n1) => {
                        proof {
                            crate::node::lemma_table_get(nodes@, rel@[a as int].to);
                            assert(n1@.name == rel@[a as int].to);
                        }
                        push_unique(&mut all, n1);
                    },
                    None => {},
                }
                match relationships.get(&rel.paths[a].to) {
                    Some(rel2) => {
                        let ghost k2: int;
                        proof {
                            crate::graphs::lemma_rels_get_from(
                                relationships@,
                                rel@[a as int].to,
                                0,
                            );
                            k2 = choose|k: int|
                                0 <= k < relationships@.len() && relationships@[k].company
                                    == rel@[a as int].to && relationships@[k].paths == rel2@;
                            assert forall|j: int| 0 <= j < rel2@.len() implies table_get(
                                nodes@,
                                (#[trigger] rel2@[j]).to,
                            ) is Some by {
                                assert(table_get(
                                    nodes@,
                                    relationships@[k2].paths[j].to,
                                ) is Some);
                            }
                        }
                        let nb = rel2.paths.len();
                        let mut b: usize = 0;
                        while b < nb
                            invariant
                                0 <= b <= nb,
                                nb == rel2.paths.len(),
                                forall|j: int|
                                    0 <= j < rel2@.len() ==> table_get(
                                        nodes@,
                                        (#[trigger] rel2@[j]).to,
                                    ) is Some,
                                all_from_table(nodes_view(two@), nodes@),
                                all_from_table(nodes_view(all@), nodes@),
                            decreases nb - b,
                        {
                            proof {
                                assert(rel2@[b as int] == rel2.paths@[b as int]@);
                            }
                            match nodes.get(&rel2.paths[b].to) {
                                Some(n2) => {
                                    proof {
                                        crate::node::lemma_table_get(nodes@, rel2@[b as int].to);
                                        assert(n2@.name == rel2@[b as int].to);
                                    }
                                    push_unique(&mut two, n2);
                                    push_unique(&mut all, n2);
                                },
                                None => {},
                            }
                            b = b + 1;
                        }
                    },
                    None => {},
                }
                a = a + 1;
            }
        },
        None => {},
    }
    (two, all)
}

/// The paths that lead from a node of `sub` to a node name of `other`, in
/// scan order: each node of `sub` in turn, each of its outgoing paths in
/// turn.
#[verifier::loop_isolation(false)]
fn bridging_paths(sub: &Subnet, other: &Subnet, relationships: &Relationships) -> (found: Vec<Path>)
    requires
        forall|x: int|
            0 <= x < sub@.len() ==> rels_get(relationships@, (#[trigger] sub@[x]).name) is Some,
    ensures
        bridge_paths_ok(found@.map(|i: int, p: Path| p@), sub@, other@, relationships@),
        (found@.len() > 0) == connects(sub@, other@, relationships@),
{
    let mut found: Vec<Path> = Vec::new();
    let nx = sub.nodes.len();
    let mut x: usize = 0;
    while x < nx
        invariant
            0 <= x <= nx,
            bridge_paths_ok(found@.map(|i: int, p: Path| p@), sub@, other@, relationships@),
            connects_upto(sub@, other@, relationships@, x as int) ==> found@.len() > 0,
            found@.len() > 0 ==> connects(sub@, other@, relationships@),
        decreases nx - x,
    {
        proof {
            assert(sub@[x as int] == sub.nodes@[x as int]@);
        }
        match relationships.get(&sub.nodes[x].name) {
            Some(rel) => {
                let ghost rowpaths = paths_of(relationships@, sub@[x as int].name);
                proof {
                    assert(rowpaths == rel@);
                }
                let ny = rel.paths.len();
                let mut y: usize = 0;
                while y < ny
                    invariant
                        0 <= y <= ny,
                        ny == rel.paths.len(),
                        rowpaths == rel@,
                        bridge_paths_ok(
                            found@.map(|i: int, p: Path| p@),
                            sub@,
                            other@,
                            relationships@,
                        ),
                        connects_upto(sub@, other@, relationships@, x as int) ==> found@.len() > 0,
                        (exists|z: int|
                            0 <= z < y && name_in(other@, rowpaths[z].to)) ==> found@.len() > 0,
                        found@.len() > 0 ==> connects(sub@, other@, relationships@),
                    decreases ny - y,
                {
                    proof {
                        assert(rowpaths[y as int] == rel.paths@[y as int]@);
                    }
                    let ghost pre = found@.map(|i: int, p: Path| p@);
                    if other.has_name(&rel.paths[y].to) {
                        found.push(rel.paths[y].duplicate());
                        proof {
                            assert(found@.map(|i: int, p: Path| p@) =~= pre.push(
                                rowpaths[y as int],
                            ));
                            assert(connects(sub@, other@, relationships@));
                        }
                    }
                    y = y + 1;
                }
                proof {
                    if connects_upto(sub@, other@, relationships@, x as int + 1) {
                        let (a, b): (int, int) = choose|a: int, b: int|
                            0 <= a < x as int + 1 && 0 <= b < paths_of(
                                relationships@,
                                sub@[a].name,
                            ).len() && name_in(other@, paths_of(relationships@, sub@[a].name)[b].to);
                        if a < x as int {
                            assert(connects_upto(sub@, other@, relationships@, x as int));
                        } else {
                            assert(0 <= b < y && name_in(other@, rowpaths[b].to));
                        }
                        assert(found@.len() > 0);
                    }
                }
            },
            None => {},
        }
        x = x + 1;
    }
    found
}

} // verus!
