//! The spatially indexed planar graph of transport nodes and edges.
//!
//! Nodes live in a slot vector under stable ids; edges are unordered id
//! pairs kept normalized (small id first) in a slot vector of their
//! own.  Beside the vectors stand two R-trees, one over node sites and
//! one over edge bounding rectangles; well-formedness ties the trees'
//! contents exactly to the live slots, so a spatial query answers
//! exactly what the live graph holds.

use vstd::prelude::*;
use vstd::multiset::Multiset;
use crate::geom::LineSegment;
use crate::geom::MAX_LEN;
use crate::geom::Site;
use crate::geom::spec_orient;
use crate::spatial::EdgeTree;
use crate::spatial::NodeTree;
use crate::spatial::edge_tree_insert;
use crate::spatial::edge_tree_new;
use crate::spatial::edge_tree_remove;
use crate::spatial::edge_tree_set;
use crate::spatial::node_tree_insert;
use crate::spatial::node_tree_new;
use crate::spatial::node_tree_remove;
use crate::spatial::node_tree_set;
use crate::stage::Stage;

verus! {

/// Stable identifier of a node; invalidated only when the node is
/// removed.
#[derive(Debug, Clone, Copy, PartialEq, Eq, Hash, Structural)]
pub struct NodeId(pub usize);

/// A node of the transport network: an intersection or terminus.
#[derive(Debug, Clone, Copy, PartialEq, Eq, Structural)]
pub struct TransportNode {
    /// Where the node stands.
    pub site: Site,
    /// Refinement stage of the paths that created the node.
    pub stage: Stage,
    /// Whether the node ends a bridge edge.
    pub is_bridge: bool,
}

impl TransportNode {
    /// A node from its attributes.
    pub fn new(site: Site, stage: Stage, is_bridge: bool) -> (r: Self)
        ensures
            r == (TransportNode { site, stage, is_bridge }),
    {
        Self { site, stage, is_bridge }
    }

    /// The stage of a path between this node and the other: the finer
    /// of the two.
    pub fn path_stage(&self, other: &TransportNode) -> (r: Stage)
        ensures
            r == if self.stage.as_int() >= other.stage.as_int() {
                self.stage
            } else {
                other.stage
            },
    {
        if self.stage.as_num() >= other.stage.as_num() {
            self.stage
        } else {
            other.stage
        }
    }

    /// Whether a path between this node and the other is a bridge:
    /// both of its ends must be bridge ends.
    pub fn path_creates_bridge(&self, other: &TransportNode) -> (r: bool)
        ensures
            r == (self.is_bridge && other.is_bridge),
    {
        self.is_bridge && other.is_bridge
    }
}

/// The smaller of two values.
pub open spec fn min_i(a: int, b: int) -> int {
    if a <= b { a } else { b }
}

/// The larger of two values.
pub open spec fn max_i(a: int, b: int) -> int {
    if a >= b { a } else { b }
}

/// The element the node tree holds for the node `nd` under id `i`.
pub open spec fn node_elem_of(i: int, nd: TransportNode) -> (i64, i64, u64) {
    (nd.site.x, nd.site.y, i as u64)
}

/// The elements the node tree holds for the first `n` node slots.
pub open spec fn node_elems_upto(nodes: Seq<Option<TransportNode>>, n: int) -> Multiset<
    (i64, i64, u64)>
    decreases n,
{
    if n <= 0 {
        Multiset::empty()
    } else {
        match nodes[n - 1] {
            Some(nd) => node_elems_upto(nodes, n - 1).insert(node_elem_of(n - 1, nd)),
            None => node_elems_upto(nodes, n - 1),
        }
    }
}

/// The element the edge tree holds for the edge between ids `a` and
/// `b`: the corners of its bounding rectangle and the id pair.
pub open spec fn edge_elem_of(nodes: Seq<Option<TransportNode>>, a: int, b: int) -> (
    i64, i64, i64, i64, u64, u64) {
    let sa = nodes[a].unwrap().site;
    let sb = nodes[b].unwrap().site;
    (
        min_i(sa.x as int, sb.x as int) as i64,
        min_i(sa.y as int, sb.y as int) as i64,
        max_i(sa.x as int, sb.x as int) as i64,
        max_i(sa.y as int, sb.y as int) as i64,
        a as u64,
        b as u64,
    )
}

/// The elements the edge tree holds for the first `m` edge slots.
pub open spec fn edge_elems_upto(
    nodes: Seq<Option<TransportNode>>,
    edges: Seq<Option<(usize, usize)>>,
    m: int,
) -> Multiset<(i64, i64, i64, i64, u64, u64)>
    decreases m,
{
    if m <= 0 {
        Multiset::empty()
    } else {
        match edges[m - 1] {
            Some(e) => edge_elems_upto(nodes, edges, m - 1).insert(
                edge_elem_of(nodes, e.0 as int, e.1 as int)),
            None => edge_elems_upto(nodes, edges, m - 1),
        }
    }
}

/// A spatially indexed planar graph of transport nodes and undirected
/// edges.
pub struct PathNetwork {
    nodes: Vec<Option<TransportNode>>,
    edges: Vec<Option<(usize, usize)>>,
    node_tree: NodeTree,
    edge_tree: EdgeTree,
}

impl PathNetwork {
    /// The node slots: the slot of a removed node stays empty.
    pub closed spec fn nodes_seq(self) -> Seq<Option<TransportNode>> {
        self.nodes@
    }

    /// The edge slots: the slot of a removed edge stays empty.
    pub closed spec fn edges_seq(self) -> Seq<Option<(usize, usize)>> {
        self.edges@
    }

    /// The id `i` names a live node.
    pub open spec fn live_node(self, i: int) -> bool {
        0 <= i < self.nodes_seq().len() && self.nodes_seq()[i] is Some
    }

    /// The node under id `i`.
    pub open spec fn node_at(self, i: int) -> TransportNode {
        self.nodes_seq()[i].unwrap()
    }

    /// The slot `j` holds a live edge.
    pub open spec fn edge_live(self, j: int) -> bool {
        0 <= j < self.edges_seq().len() && self.edges_seq()[j] is Some
    }

    /// The id pair of the edge in slot `j`.
    pub open spec fn edge_pair(self, j: int) -> (usize, usize) {
        self.edges_seq()[j].unwrap()
    }

    /// A live edge joins the (normalized) id pair.
    pub open spec fn has_edge(self, a: int, b: int) -> bool {
        exists|j: int| self.edge_live(j) && (#[trigger] self.edge_pair(j)).0 == min_i(
            a, b) && self.edge_pair(j).1 == max_i(a, b)
    }

    /// Every edge joins two live, distinct nodes, no edge is kept
    /// twice, every site lies inside the world, and both spatial
    /// indices hold exactly the live slots.
    pub open spec fn wf(self) -> bool {
        &&& forall|j: int| self.edge_live(j) ==> (#[trigger] self.edge_pair(j)).0
            < self.edge_pair(j).1 && self.live_node(self.edge_pair(j).0 as int)
            && self.live_node(self.edge_pair(j).1 as int)
        &&& forall|j1: int, j2: int| self.edge_live(j1) && self.edge_live(j2) && j1 != j2
            ==> #[trigger] self.edge_pair(j1) != #[trigger] self.edge_pair(j2)
        &&& forall|i: int| self.live_node(i) ==> (#[trigger] self.node_at(i)).site.wf()
        &&& self.indices_coherent()
    }

    /// Both spatial indices hold exactly the elements of the live
    /// slots.
    pub closed spec fn indices_coherent(self) -> bool {
        &&& node_tree_set(self.node_tree) == node_elems_upto(
            self.nodes_seq(), self.nodes_seq().len() as int)
        &&& edge_tree_set(self.edge_tree) == edge_elems_upto(
            self.nodes_seq(), self.edges_seq(), self.edges_seq().len() as int)
    }

    /// An empty network.
    pub fn new() -> (r: Self)
        ensures
            r.wf(),
            r.nodes_seq().len() == 0,
            r.edges_seq().len() == 0,
    {
        let r = Self {
            nodes: Vec::new(),
            edges: Vec::new(),
            node_tree: node_tree_new(),
            edge_tree: edge_tree_new(),
        };
        proof {
            assert(node_elems_upto(r.nodes@, 0) =~= Multiset::empty());
            assert(edge_elems_upto(r.nodes@, r.edges@, 0) =~= Multiset::empty());
        }
        r
    }

    /// The node under the id, if it is live.
    pub fn get_node(&self, id: NodeId) -> (r: Option<TransportNode>)
        ensures
            r == if self.live_node(id.0 as int) {
                Some(self.node_at(id.0 as int))
            } else {
                None
            },
    {
        if id.0 < self.nodes.len() {
            self.nodes[id.0]
        } else {
            None
        }
    }

    /// Adds a node and returns its fresh stable id.
    pub fn add_node(&mut self, node: TransportNode) -> (id: NodeId)
        requires
            old(self).wf(),
            node.site.wf(),
            old(self).nodes_seq().len() < usize::MAX,
        ensures
            final(self).wf(),
            id.0 as int == old(self).nodes_seq().len(),
            final(self).nodes_seq() == old(self).nodes_seq().push(Some(node)),
            final(self).edges_seq() == old(self).edges_seq(),
    {
        let id: usize = self.nodes.len();
        self.nodes.push(Some(node));
        node_tree_insert(&mut self.node_tree, node.site.x, node.site.y, id as u64);
        proof {
            let pre = old(self).nodes@;
            let n = self.nodes@.len() as int;
            lemma_node_elems_prefix(pre, self.nodes@, n - 1);
            assert(self.nodes@[n - 1] == Some(node));
            assert(forall|j: int| 0 <= j < self.edges@.len() && self.edges@[j] is Some
                ==> 0 <= (#[trigger] self.edges@[j]).unwrap().0 < pre.len()
                    && 0 <= self.edges@[j].unwrap().1 < pre.len()) by {
                assert forall|j: int| 0 <= j < self.edges@.len() && self.edges@[j]
                    is Some implies 0 <= (#[trigger] self.edges@[j]).unwrap().0
                    < pre.len() && 0 <= self.edges@[j].unwrap().1 < pre.len() by {
                    assert(old(self).edge_live(j));
                    assert(old(self).edge_pair(j) == self.edges@[j].unwrap());
                }
            }
            lemma_edge_elems_nodes_prefix(
                pre, self.nodes@, self.edges@, self.edges@.len() as int);
            assert(self.edges@ == old(self).edges@);
            assert(self.nodes@ == pre.push(Some(node)));
            assert(forall|i: int| 0 <= i < pre.len() ==> self.nodes@[i] == pre[i]);
            assert forall|j: int| self.edge_live(j) implies (#[trigger]
                self.edge_pair(j)).0 < self.edge_pair(j).1
                && self.live_node(self.edge_pair(j).0 as int)
                && self.live_node(self.edge_pair(j).1 as int) by {
                assert(old(self).edge_live(j));
                assert(old(self).edge_pair(j) == self.edge_pair(j));
                assert(old(self).live_node(old(self).edge_pair(j).0 as int));
            }
            assert forall|j1: int, j2: int| self.edge_live(j1) && self.edge_live(j2)
                && j1 != j2 implies #[trigger] self.edge_pair(j1) != #[trigger]
                self.edge_pair(j2) by {
                assert(old(self).edge_live(j1) && old(self).edge_live(j2));
                assert(old(self).edge_pair(j1) == self.edge_pair(j1));
                assert(old(self).edge_pair(j2) == self.edge_pair(j2));
            }
            assert forall|i: int| self.live_node(i) implies (#[trigger]
                self.node_at(i)).site.wf() by {
                if i < pre.len() {
                    assert(old(self).live_node(i));
                    assert(old(self).node_at(i) == self.node_at(i));
                } else {
                    assert(self.node_at(i) == node);
                }
            }
        }
        NodeId(id)
    }

    /// Adds the undirected edge between the two ids.  A self loop, a
    /// dead id or an edge already present changes nothing; the call
    /// says whether the edge was added.
    pub fn add_path(&mut self, a: NodeId, b: NodeId) -> (r: bool)
        requires
            old(self).wf(),
            old(self).edges_seq().len() < usize::MAX,
        ensures
            final(self).wf(),
            final(self).nodes_seq() == old(self).nodes_seq(),
            r == (a.0 != b.0 && old(self).live_node(a.0 as int) && old(self).live_node(
                b.0 as int) && !old(self).has_edge(a.0 as int, b.0 as int)),
            r ==> final(self).edges_seq() == old(self).edges_seq().push(
                Some((min_usize(a.0, b.0), max_usize(a.0, b.0)))),
            !r ==> final(self).edges_seq() == old(self).edges_seq(),
    {
        let lo: usize = if a.0 <= b.0 { a.0 } else { b.0 };
        let hi: usize = if a.0 <= b.0 { b.0 } else { a.0 };
        if lo == hi {
            return false;
        }
        if self.nodes.len() <= hi {
            return false;
        }
        let na = match self.nodes[lo] {
            Some(n) => n,
            None => { return false; },
        };
        let nb = match self.nodes[hi] {
            Some(n) => n,
            None => { return false; },
        };
        if self.contains_edge(lo, hi) {
            return false;
        }
        let lx: i64 = if na.site.x <= nb.site.x { na.site.x } else { nb.site.x };
        let ly: i64 = if na.site.y <= nb.site.y { na.site.y } else { nb.site.y };
        let ux: i64 = if na.site.x >= nb.site.x { na.site.x } else { nb.site.x };
        let uy: i64 = if na.site.y >= nb.site.y { na.site.y } else { nb.site.y };
        proof {
            assert(self.live_node(lo as int) && self.live_node(hi as int));
            assert(na == self.node_at(lo as int) && nb == self.node_at(hi as int));
            assert(self.node_at(lo as int).site.wf() && self.node_at(hi as int).site.wf());
        }
        self.edges.push(Some((lo, hi)));
        edge_tree_insert(&mut self.edge_tree, lx, ly, ux, uy, lo as u64, hi as u64);
        proof {
            let m = self.edges@.len() as int;
            lemma_edge_elems_edges_prefix(self.nodes@, old(self).edges@, self.edges@, m - 1);
            assert(self.edges@[m - 1] == Some((lo, hi)));
            assert(edge_elem_of(self.nodes@, lo as int, hi as int) == (
                lx, ly, ux, uy, lo as u64, hi as u64));
            assert(min_i(a.0 as int, b.0 as int) == lo as int);
            assert(max_i(a.0 as int, b.0 as int) == hi as int);
            assert forall|j: int| self.edge_live(j) implies (#[trigger]
                self.edge_pair(j)).0 < self.edge_pair(j).1
                && self.live_node(self.edge_pair(j).0 as int)
                && self.live_node(self.edge_pair(j).1 as int) by {
                if j < m - 1 {
                    assert(old(self).edge_live(j));
                    assert(old(self).edge_pair(j) == self.edge_pair(j));
                    assert(old(self).live_node(old(self).edge_pair(j).0 as int));
                } else {
                    assert(self.edge_pair(j) == (lo, hi));
                }
            }
            assert forall|j1: int, j2: int| self.edge_live(j1) && self.edge_live(j2)
                && j1 != j2 implies #[trigger] self.edge_pair(j1) != #[trigger]
                self.edge_pair(j2) by {
                if j1 < m - 1 && j2 < m - 1 {
                    assert(old(self).edge_live(j1) && old(self).edge_live(j2));
                    assert(old(self).edge_pair(j1) == self.edge_pair(j1));
                    assert(old(self).edge_pair(j2) == self.edge_pair(j2));
                } else {
                    let jo = if j1 < m - 1 { j1 } else { j2 };
                    if jo < m - 1 {
                        assert(old(self).edge_live(jo));
                        assert(old(self).edge_pair(jo) == self.edge_pair(jo));
                        if self.edge_pair(jo) == (lo, hi) {
                            assert(old(self).has_edge(lo as int, hi as int));
                        }
                    }
                }
            }
            assert forall|i: int| self.live_node(i) implies (#[trigger]
                self.node_at(i)).site.wf() by {
                assert(old(self).live_node(i));
                assert(old(self).node_at(i) == self.node_at(i));
            }
        }
        true
    }

    /// Whether a live slot holds the normalized pair.
    fn contains_edge(&self, lo: usize, hi: usize) -> (r: bool)
        requires
            lo <= hi,
        ensures
            r == self.has_edge(lo as int, hi as int),
    {
        let mut j: usize = 0;
        while j < self.edges.len()
            invariant
                j <= self.edges@.len(),
                lo <= hi,
                forall|k: int| 0 <= k < j as int && self.edge_live(k) ==> !((#[trigger]
                    self.edge_pair(k)).0 == lo as int && self.edge_pair(k).1 == hi as int),
            decreases self.edges@.len() - j,
        {
            let hit: bool = match self.edges[j] {
                Some(e) => e.0 == lo && e.1 == hi,
                None => false,
            };
            if hit {
                proof {
                    assert(self.edge_live(j as int));
                    assert(self.edge_pair(j as int) == (lo, hi));
                    assert(min_i(lo as int, hi as int) == lo as int);
                    assert(max_i(lo as int, hi as int) == hi as int);
                }
                return true;
            }
            j = j + 1;
        }
        proof {
            assert(min_i(lo as int, hi as int) == lo as int);
            assert(max_i(lo as int, hi as int) == hi as int);
            if self.has_edge(lo as int, hi as int) {
                let k = choose|k: int| self.edge_live(k) && (#[trigger] self.edge_pair(
                    k)).0 == lo as int && self.edge_pair(k).1 == hi as int;
                assert(false);
            }
        }
        false
    }

    /// Removes the undirected edge between the two ids, if a live slot
    /// holds it; the call says whether one did.
    pub fn remove_path(&mut self, a: NodeId, b: NodeId) -> (r: bool)
        requires
            old(self).wf(),
        ensures
            final(self).wf(),
            final(self).nodes_seq() == old(self).nodes_seq(),
            r == old(self).has_edge(a.0 as int, b.0 as int),
            r ==> exists|j: int| old(self).edge_live(j) && (#[trigger] old(
                self).edge_pair(j)).0 == min_i(a.0 as int, b.0 as int) && old(
                self).edge_pair(j).1 == max_i(a.0 as int, b.0 as int) && final(
                self).edges_seq() == old(self).edges_seq().update(j, None),
            !r ==> final(self).edges_seq() == old(self).edges_seq(),
    {
        let lo: usize = if a.0 <= b.0 { a.0 } else { b.0 };
        let hi: usize = if a.0 <= b.0 { b.0 } else { a.0 };
        let mut j: usize = 0;
        while j < self.edges.len()
            invariant
                *self == *old(self),
                old(self).wf(),
                lo <= hi,
                lo as int == min_i(a.0 as int, b.0 as int),
                hi as int == max_i(a.0 as int, b.0 as int),
                j <= self.edges@.len(),
                forall|k: int| 0 <= k < j as int && self.edge_live(k) ==> !((#[trigger]
                    self.edge_pair(k)).0 == lo as int && self.edge_pair(k).1 == hi as int),
            decreases self.edges@.len() - j,
        {
            let hit: bool = match self.edges[j] {
                Some(e) => e.0 == lo && e.1 == hi,
                None => false,
            };
            if hit {
                proof {
                    assert(self.edge_live(j as int));
                    assert(self.edge_pair(j as int) == (lo, hi));
                    assert(self.live_node(lo as int) && self.live_node(hi as int));
                }
                let na = match self.nodes[lo] {
                    Some(n) => n,
                    None => { proof { assert(false); } return false; },
                };
                let nb = match self.nodes[hi] {
                    Some(n) => n,
                    None => { proof { assert(false); } return false; },
                };
                let lx: i64 = if na.site.x <= nb.site.x { na.site.x } else { nb.site.x };
                let ly: i64 = if na.site.y <= nb.site.y { na.site.y } else { nb.site.y };
                let ux: i64 = if na.site.x >= nb.site.x { na.site.x } else { nb.site.x };
                let uy: i64 = if na.site.y >= nb.site.y { na.site.y } else { nb.site.y };
                let ghost pre = self.edges@;
                self.edges.set(j, None);
                proof {
                    lemma_edge_elems_update_none(
                        self.nodes@, pre, self.edges@, j as int, pre.len() as int);
                    assert(edge_elem_of(self.nodes@, lo as int, hi as int) == (
                        lx, ly, ux, uy, lo as u64, hi as u64));
                    lemma_edge_elem_count_pos(
                        self.nodes@, pre, j as int, pre.len() as int);
                }
                edge_tree_remove(
                    &mut self.edge_tree, lx, ly, ux, uy, lo as u64, hi as u64);
                proof {
                    assert(old(self).edge_live(j as int) && old(self).edge_pair(
                        j as int) == (lo, hi));
                    assert(min_i(a.0 as int, b.0 as int) == lo as int);
                    assert(max_i(a.0 as int, b.0 as int) == hi as int);
                    assert(old(self).has_edge(a.0 as int, b.0 as int));
                    assert forall|k: int| self.edge_live(k) implies (#[trigger]
                        self.edge_pair(k)).0 < self.edge_pair(k).1
                        && self.live_node(self.edge_pair(k).0 as int)
                        && self.live_node(self.edge_pair(k).1 as int) by {
                        assert(old(self).edge_live(k));
                        assert(old(self).edge_pair(k) == self.edge_pair(k));
                    }
                    assert forall|k1: int, k2: int| self.edge_live(k1)
                        && self.edge_live(k2) && k1 != k2 implies #[trigger]
                        self.edge_pair(k1) != #[trigger] self.edge_pair(k2) by {
                        assert(old(self).edge_live(k1) && old(self).edge_live(k2));
                        assert(old(self).edge_pair(k1) == self.edge_pair(k1));
                        assert(old(self).edge_pair(k2) == self.edge_pair(k2));
                    }
                    assert forall|i: int| self.live_node(i) implies (#[trigger]
                        self.node_at(i)).site.wf() by {
                        assert(old(self).live_node(i));
                        assert(old(self).node_at(i) == self.node_at(i));
                    }
                }
                return true;
            }
            j = j + 1;
        }
        proof {
            assert(min_i(a.0 as int, b.0 as int) == lo as int);
            assert(max_i(a.0 as int, b.0 as int) == hi as int);
            if old(self).has_edge(a.0 as int, b.0 as int) {
                let k = choose|k: int| old(self).edge_live(k) && (#[trigger] old(
                    self).edge_pair(k)).0 == lo as int && old(self).edge_pair(k).1
                    == hi as int;
                assert(false);
            }
        }
        false
    }

    /// Removes a live node that has no incident edge; a dead id changes
    /// nothing.
    pub fn remove_node(&mut self, id: NodeId)
        requires
            old(self).wf(),
            forall|j: int| old(self).edge_live(j) ==> (#[trigger] old(self).edge_pair(
                j)).0 != id.0 && old(self).edge_pair(j).1 != id.0,
        ensures
            final(self).wf(),
            final(self).edges_seq() == old(self).edges_seq(),
            old(self).live_node(id.0 as int) ==> final(self).nodes_seq() == old(
                self).nodes_seq().update(id.0 as int, None),
            !old(self).live_node(id.0 as int) ==> final(self).nodes_seq() == old(
                self).nodes_seq(),
    {
        if id.0 >= self.nodes.len() {
            return;
        }
        let nd = match self.nodes[id.0] {
            Some(n) => n,
            None => { return; },
        };
        let ghost pre = self.nodes@;
        self.nodes.set(id.0, None);
        proof {
            lemma_node_elems_update_none(pre, self.nodes@, id.0 as int, pre.len() as int);
            lemma_node_elem_count_pos(pre, id.0 as int, pre.len() as int);
            assert(forall|j: int| 0 <= j < self.edges@.len() && self.edges@[j] is Some
                ==> 0 <= (#[trigger] self.edges@[j]).unwrap().0 < pre.len()
                    && 0 <= self.edges@[j].unwrap().1 < pre.len()
                    && self.edges@[j].unwrap().0 != id.0
                    && self.edges@[j].unwrap().1 != id.0) by {
                assert forall|j: int| 0 <= j < self.edges@.len() && self.edges@[j]
                    is Some implies 0 <= (#[trigger] self.edges@[j]).unwrap().0
                    < pre.len() && 0 <= self.edges@[j].unwrap().1 < pre.len()
                    && self.edges@[j].unwrap().0 != id.0
                    && self.edges@[j].unwrap().1 != id.0 by {
                    assert(old(self).edge_live(j));
                    assert(old(self).edge_pair(j) == self.edges@[j].unwrap());
                }
            }
            lemma_edge_elems_nodes_untouched(
                pre, self.nodes@, self.edges@, self.edges@.len() as int, id.0 as int);
        }
        node_tree_remove(&mut self.node_tree, nd.site.x, nd.site.y, id.0 as u64);
        proof {
            assert forall|j: int| self.edge_live(j) implies (#[trigger]
                self.edge_pair(j)).0 < self.edge_pair(j).1
                && self.live_node(self.edge_pair(j).0 as int)
                && self.live_node(self.edge_pair(j).1 as int) by {
                assert(old(self).edge_live(j));
                assert(old(self).edge_pair(j) == self.edge_pair(j));
                assert(old(self).live_node(old(self).edge_pair(j).0 as int));
            }
            assert forall|j1: int, j2: int| self.edge_live(j1) && self.edge_live(j2)
                && j1 != j2 implies #[trigger] self.edge_pair(j1) != #[trigger]
                self.edge_pair(j2) by {
                assert(old(self).edge_live(j1) && old(self).edge_live(j2));
                assert(old(self).edge_pair(j1) == self.edge_pair(j1));
                assert(old(self).edge_pair(j2) == self.edge_pair(j2));
            }
            assert forall|i: int| self.live_node(i) implies (#[trigger]
                self.node_at(i)).site.wf() by {
                assert(old(self).live_node(i));
                assert(old(self).node_at(i) == self.node_at(i));
            }
        }
    }
}

/// The live nodes with their ids, in id order, over the first `n`
/// slots.
pub open spec fn spec_live_nodes(nodes: Seq<Option<TransportNode>>, n: int) -> Seq<
    (NodeId, TransportNode)>
    decreases n,
{
    if n <= 0 {
        Seq::empty()
    } else {
        match nodes[n - 1] {
            Some(nd) => spec_live_nodes(nodes, n - 1).push((NodeId((n - 1) as usize), nd)),
            None => spec_live_nodes(nodes, n - 1),
        }
    }
}

/// The live edges, in slot order, over the first `m` slots.
pub open spec fn spec_live_edges(edges: Seq<Option<(usize, usize)>>, m: int) -> Seq<
    (NodeId, NodeId)>
    decreases m,
{
    if m <= 0 {
        Seq::empty()
    } else {
        match edges[m - 1] {
            Some(e) => spec_live_edges(edges, m - 1).push((NodeId(e.0), NodeId(e.1))),
            None => spec_live_edges(edges, m - 1),
        }
    }
}

impl PathNetwork {
    /// How many node slots exist, live and removed together.
    pub fn nodes_len(&self) -> (r: usize)
        ensures
            r as int == self.nodes_seq().len(),
    {
        self.nodes.len()
    }

    /// How many edge slots exist, live and removed together.
    pub fn edges_len(&self) -> (r: usize)
        ensures
            r as int == self.edges_seq().len(),
    {
        self.edges.len()
    }

    /// The live nodes with their ids, in id order.
    pub fn live_nodes(&self) -> (r: Vec<(NodeId, TransportNode)>)
        ensures
            r@ == spec_live_nodes(self.nodes_seq(), self.nodes_seq().len() as int),
    {
        let mut r: Vec<(NodeId, TransportNode)> = Vec::new();
        let mut i: usize = 0;
        while i < self.nodes.len()
            invariant
                i <= self.nodes_seq().len(),
                r@ == spec_live_nodes(self.nodes_seq(), i as int),
            decreases self.nodes_seq().len() - i,
        {
            match self.nodes[i] {
                Some(nd) => {
                    r.push((NodeId(i), nd));
                },
                None => {},
            }
            i = i + 1;
        }
        r
    }

    /// The live edges as normalized id pairs, in slot order.
    pub fn live_edges(&self) -> (r: Vec<(NodeId, NodeId)>)
        ensures
            r@ == spec_live_edges(self.edges_seq(), self.edges_seq().len() as int),
    {
        let mut r: Vec<(NodeId, NodeId)> = Vec::new();
        let mut j: usize = 0;
        while j < self.edges.len()
            invariant
                j <= self.edges_seq().len(),
                r@ == spec_live_edges(self.edges_seq(), j as int),
            decreases self.edges_seq().len() - j,
        {
            match self.edges[j] {
                Some(e) => {
                    r.push((NodeId(e.0), NodeId(e.1)));
                },
                None => {},
            }
            j = j + 1;
        }
        r
    }
}

/// The smaller of two ids.
pub open spec fn min_usize(a: usize, b: usize) -> usize {
    if a <= b { a } else { b }
}

/// The larger of two ids.
pub open spec fn max_usize(a: usize, b: usize) -> usize {
    if a >= b { a } else { b }
}

impl PathNetwork {
    /// The bounding rectangle of the live edge between `a` and `b`
    /// overlaps (closed) the rectangle with the given corners.
    pub open spec fn edge_touches_rect(
        self,
        a: int,
        b: int,
        lx: int,
        ly: int,
        ux: int,
        uy: int,
    ) -> bool {
        let sa = self.node_at(a).site;
        let sb = self.node_at(b).site;
        &&& min_i(sa.x as int, sb.x as int) <= ux
        &&& lx <= max_i(sa.x as int, sb.x as int)
        &&& min_i(sa.y as int, sb.y as int) <= uy
        &&& ly <= max_i(sa.y as int, sb.y as int)
    }

    /// Every live node whose site lies strictly within `radius` of the
    /// segment.  The returned ids are exactly those; their order is
    /// unspecified but a pure function of the index structure.
    pub fn nodes_around_line(&self, line: LineSegment, radius: i64) -> (r: Vec<NodeId>)
        requires
            self.wf(),
            line.wf(),
            0 <= radius <= MAX_LEN,
        ensures
            forall|k: int| 0 <= k < r@.len() ==> self.live_node((#[trigger] r@[
                k]).0 as int) && LineSegment::spec_dist_lt(
                line, self.node_at(r@[k].0 as int).site, radius as int),
            forall|i: int| self.live_node(i) && LineSegment::spec_dist_lt(
                line, (#[trigger] self.node_at(i)).site, radius as int)
                ==> r@.contains(NodeId(i as usize)),
    {
        broadcast use vstd::seq_lib::group_to_multiset_ensures;
        broadcast use vstd::multiset::group_multiset_axioms;

        let minx: i64 = if line.from.x <= line.to.x { line.from.x } else { line.to.x };
        let maxx: i64 = if line.from.x >= line.to.x { line.from.x } else { line.to.x };
        let miny: i64 = if line.from.y <= line.to.y { line.from.y } else { line.to.y };
        let maxy: i64 = if line.from.y >= line.to.y { line.from.y } else { line.to.y };
        let lx: i64 = minx - radius;
        let ly: i64 = miny - radius;
        let ux: i64 = maxx + radius;
        let uy: i64 = maxy + radius;
        let cands = crate::spatial::node_tree_in_rect(&self.node_tree, lx, ly, ux, uy);
        let mut r: Vec<NodeId> = Vec::new();
        let mut k: usize = 0;
        while k < cands.len()
            invariant
                self.wf(),
                line.wf(),
                0 <= radius <= MAX_LEN,
                k <= cands@.len(),
                forall|e: (i64, i64, u64)| cands@.to_multiset().count(e) > 0 ==> (
                    node_elems_upto(self.nodes_seq(), self.nodes_seq().len() as int)
                        .count(e) > 0 && lx as int <= e.0 <= ux as int && ly as int
                        <= e.1 <= uy as int),
                forall|e: (i64, i64, u64)| node_elems_upto(
                    self.nodes_seq(), self.nodes_seq().len() as int).count(e) > 0
                    && lx as int <= e.0 <= ux as int && ly as int <= e.1 <= uy as int
                    ==> cands@.to_multiset().count(e) > 0,
                forall|j: int| 0 <= j < r@.len() ==> self.live_node((#[trigger] r@[
                    j]).0 as int) && LineSegment::spec_dist_lt(
                    line, self.node_at(r@[j].0 as int).site, radius as int),
                forall|j: int| 0 <= j < k as int && LineSegment::spec_dist_lt(
                    line, Site { x: (#[trigger] cands@[j]).0, y: cands@[j].1 },
                    radius as int) ==> r@.contains(NodeId(cands@[j].2 as usize)),
            decreases cands@.len() - k,
        {
            let c: (i64, i64, u64) = cands[k];
            proof {
                broadcast use vstd::seq_lib::group_to_multiset_ensures;
                broadcast use vstd::multiset::group_multiset_axioms;

                vstd::std_specs::vec::axiom_spec_len(&self.nodes);
                assert(cands@[k as int] == c);
                assert(cands@.contains(c));
                assert(cands@.to_multiset().count(c) > 0);
                lemma_node_elems_mem(
                    self.nodes_seq(), self.nodes_seq().len() as int, c);
                assert(self.live_node(c.2 as int));
                assert(self.node_at(c.2 as int).site == (Site { x: c.0, y: c.1 }));
            }
            let s = Site { x: c.0, y: c.1 };
            if line.get_distance_lt(&s, radius) {
                let ghost rpre = r@;
                r.push(NodeId(c.2 as usize));
                proof {
                    assert(r@ == rpre.push(NodeId(c.2 as usize)));
                    assert(forall|j: int| 0 <= j < rpre.len() ==> r@[j] == rpre[j]);
                    assert(r@[r@.len() - 1] == NodeId(c.2 as usize));
                    assert forall|x: NodeId| rpre.contains(x) implies r@.contains(x) by {
                        let ii = choose|ii: int| 0 <= ii < rpre.len() && rpre[ii] == x;
                        assert(r@[ii] == x);
                    }
                }
            }
            k = k + 1;
        }
        proof {
            broadcast use vstd::seq_lib::group_to_multiset_ensures;
            broadcast use vstd::multiset::group_multiset_axioms;

            vstd::std_specs::vec::axiom_spec_len(&self.nodes);
            assert forall|i: int| self.live_node(i) && LineSegment::spec_dist_lt(
                line, (#[trigger] self.node_at(i)).site, radius as int) implies r@
                .contains(NodeId(i as usize)) by {
                let site = self.node_at(i).site;
                let e = (site.x, site.y, i as u64);
                lemma_node_elems_mem_intro(
                    self.nodes_seq(), self.nodes_seq().len() as int, i);
                lemma_dist_lt_in_box(line, site, radius as int);
                assert(cands@.to_multiset().count(e) > 0);
                assert(cands@.contains(e));
                let j = choose|j: int| 0 <= j < cands@.len() && cands@[j] == e;
                assert((Site { x: cands@[j].0, y: cands@[j].1 }) == site);
                assert(LineSegment::spec_dist_lt(
                    line, Site { x: cands@[j].0, y: cands@[j].1 }, radius as int));
                assert(cands@[j].2 as usize as int == i);
            }
        }
        r
    }

    /// Every live edge whose bounding rectangle overlaps (closed) the
    /// axis-aligned rectangle spanned by the two sites.  The returned
    /// pairs are normalized, small id first; their order is unspecified.
    pub fn paths_touching_rect(&self, p: Site, q: Site) -> (r: Vec<(NodeId, NodeId)>)
        requires
            self.wf(),
        ensures
            forall|k: int| 0 <= k < r@.len() ==> (#[trigger] r@[k]).0.0 < r@[k].1.0
                && self.has_edge(r@[k].0.0 as int, r@[k].1.0 as int)
                && self.edge_touches_rect(
                r@[k].0.0 as int, r@[k].1.0 as int, min_i(p.x as int, q.x as int),
                min_i(p.y as int, q.y as int), max_i(p.x as int, q.x as int),
                max_i(p.y as int, q.y as int)),
            forall|j: int| self.edge_live(j) && self.edge_touches_rect(
                (#[trigger] self.edge_pair(j)).0 as int, self.edge_pair(j).1 as int,
                min_i(p.x as int, q.x as int), min_i(p.y as int, q.y as int), max_i(
                p.x as int, q.x as int), max_i(p.y as int, q.y as int)) ==> r@.contains(
                (NodeId(self.edge_pair(j).0), NodeId(self.edge_pair(j).1))),
    {
        broadcast use vstd::seq_lib::group_to_multiset_ensures;
        broadcast use vstd::multiset::group_multiset_axioms;

        let lx: i64 = if p.x <= q.x { p.x } else { q.x };
        let ly: i64 = if p.y <= q.y { p.y } else { q.y };
        let ux: i64 = if p.x >= q.x { p.x } else { q.x };
        let uy: i64 = if p.y >= q.y { p.y } else { q.y };
        let cands = crate::spatial::edge_tree_in_rect(&self.edge_tree, lx, ly, ux, uy);
        let mut r: Vec<(NodeId, NodeId)> = Vec::new();
        let mut k: usize = 0;
        while k < cands.len()
            invariant
                self.wf(),
                k <= cands@.len(),
                forall|e: (i64, i64, i64, i64, u64, u64)| cands@.to_multiset().count(e)
                    > 0 ==> (edge_elems_upto(self.nodes_seq(), self.edges_seq(),
                    self.edges_seq().len() as int).count(e) > 0 && e.0 <= ux as int
                    && lx as int <= e.2 && e.1 <= uy as int && ly as int <= e.3),
                forall|e: (i64, i64, i64, i64, u64, u64)| edge_elems_upto(
                    self.nodes_seq(), self.edges_seq(), self.edges_seq().len() as int)
                    .count(e) > 0 && e.0 <= ux as int && lx as int <= e.2 && e.1
                    <= uy as int && ly as int <= e.3 ==> cands@.to_multiset().count(e)
                    > 0,
                forall|t: int| 0 <= t < r@.len() ==> (#[trigger] r@[t]).0.0 < r@[t].1.0
                    && self.has_edge(r@[t].0.0 as int, r@[t].1.0 as int)
                    && self.edge_touches_rect(r@[t].0.0 as int, r@[t].1.0 as int,
                    lx as int, ly as int, ux as int, uy as int),
                forall|j: int| 0 <= j < k as int ==> r@.contains(
                    (NodeId((#[trigger] cands@[j]).4 as usize), NodeId(cands@[j].5 as usize))),
            decreases cands@.len() - k,
        {
            let c: (i64, i64, i64, i64, u64, u64) = cands[k];
            proof {
                broadcast use vstd::seq_lib::group_to_multiset_ensures;
                broadcast use vstd::multiset::group_multiset_axioms;

                vstd::std_specs::vec::axiom_spec_len(&self.nodes);
                assert(cands@[k as int] == c);
                assert(cands@.contains(c));
                assert(cands@.to_multiset().count(c) > 0);
                lemma_edge_elems_mem(
                    self.nodes_seq(), self.edges_seq(), self.edges_seq().len() as int, c);
                let j = choose|j: int| 0 <= j < self.edges_seq().len()
                    && self.edges_seq()[j] is Some && edge_elem_of(self.nodes_seq(),
                    (#[trigger] self.edges_seq()[j]).unwrap().0 as int,
                    self.edges_seq()[j].unwrap().1 as int) == c;
                assert(self.edge_live(j));
                assert(self.edge_pair(j).0 as u64 == c.4 && self.edge_pair(j).1 as u64
                    == c.5);
                assert(self.live_node(self.edge_pair(j).0 as int));
                assert(self.edge_touches_rect(self.edge_pair(j).0 as int,
                    self.edge_pair(j).1 as int, lx as int, ly as int, ux as int,
                    uy as int));
            }
            let ghost rpre = r@;
            r.push((NodeId(c.4 as usize), NodeId(c.5 as usize)));
            proof {
                assert forall|x: (NodeId, NodeId)| rpre.contains(x) implies r@.contains(
                    x) by {
                    let ii = choose|ii: int| 0 <= ii < rpre.len() && rpre[ii] == x;
                    assert(r@[ii] == x);
                }
                assert(r@[r@.len() - 1] == (NodeId(c.4 as usize), NodeId(c.5 as usize)));
            }
            k = k + 1;
        }
        proof {
            broadcast use vstd::seq_lib::group_to_multiset_ensures;
            broadcast use vstd::multiset::group_multiset_axioms;

            vstd::std_specs::vec::axiom_spec_len(&self.nodes);
            assert forall|j: int| self.edge_live(j) && self.edge_touches_rect(
                (#[trigger] self.edge_pair(j)).0 as int, self.edge_pair(j).1 as int,
                min_i(p.x as int, q.x as int), min_i(p.y as int, q.y as int), max_i(
                p.x as int, q.x as int), max_i(p.y as int, q.y as int)) implies r@
                .contains((NodeId(self.edge_pair(j).0), NodeId(self.edge_pair(j).1))) by {
                let e = edge_elem_of(self.nodes_seq(), self.edge_pair(j).0 as int,
                    self.edge_pair(j).1 as int);
                lemma_edge_elems_mem_intro(
                    self.nodes_seq(), self.edges_seq(), self.edges_seq().len() as int, j);
                assert(self.live_node(self.edge_pair(j).0 as int));
                assert(cands@.to_multiset().count(e) > 0);
                assert(cands@.contains(e));
                let t = choose|t: int| 0 <= t < cands@.len() && cands@[t] == e;
                assert(e.4 as usize == self.edge_pair(j).0 && e.5 as usize
                    == self.edge_pair(j).1);
            }
        }
        r
    }

    /// No two live non-bridge edges properly cross.
    pub open spec fn quasi_planar(self) -> bool {
        forall|j1: int, j2: int| self.edge_live(j1) && self.edge_live(j2)
            && !(#[trigger] self.edge_is_bridge(j1)) && !(#[trigger] self.edge_is_bridge(
            j2)) ==> !LineSegment::spec_proper_cross(self.edge_segment(j1),
            self.edge_segment(j2))
    }

    /// The edge in slot `j` is a bridge: both of its ends are bridge
    /// ends.
    pub open spec fn edge_is_bridge(self, j: int) -> bool {
        self.node_at(self.edge_pair(j).0 as int).is_bridge && self.node_at(
            self.edge_pair(j).1 as int).is_bridge
    }

    /// The segment of the edge in slot `j`.
    pub open spec fn edge_segment(self, j: int) -> LineSegment {
        LineSegment {
            from: self.node_at(self.edge_pair(j).0 as int).site,
            to: self.node_at(self.edge_pair(j).1 as int).site,
        }
    }

    /// Decides quasi-planarity: whether no two live non-bridge edges
    /// properly cross.
    pub fn is_quasi_planar(&self) -> (r: bool)
        requires
            self.wf(),
        ensures
            r == self.quasi_planar(),
    {
        let m: usize = self.edges.len();
        let mut j1: usize = 0;
        while j1 < m
            invariant
                self.wf(),
                m == self.edges_seq().len(),
                j1 <= m,
                forall|a: int, b: int| 0 <= a < j1 as int && self.edge_live(a)
                    && self.edge_live(b) && !(#[trigger] self.edge_is_bridge(a))
                    && !(#[trigger] self.edge_is_bridge(b)) ==> !LineSegment
                    ::spec_proper_cross(self.edge_segment(a), self.edge_segment(b)),
            decreases m - j1,
        {
            let e1 = match self.edges[j1] {
                Some(e) => e,
                None => { j1 = j1 + 1; continue; },
            };
            proof {
                assert(self.edge_live(j1 as int));
                assert(self.edge_pair(j1 as int) == e1);
                assert(self.live_node(e1.0 as int) && self.live_node(e1.1 as int));
            }
            let n1a = self.nodes[e1.0].unwrap();
            let n1b = self.nodes[e1.1].unwrap();
            if !(n1a.is_bridge && n1b.is_bridge) {
                let seg1 = LineSegment { from: n1a.site, to: n1b.site };
                let mut j2: usize = 0;
                while j2 < m
                    invariant
                        self.wf(),
                        m == self.edges_seq().len(),
                        j1 < m,
                        j2 <= m,
                        self.edge_live(j1 as int),
                        e1 == self.edge_pair(j1 as int),
                        n1a == self.node_at(e1.0 as int),
                        n1b == self.node_at(e1.1 as int),
                        !(n1a.is_bridge && n1b.is_bridge),
                        seg1 == self.edge_segment(j1 as int),
                        forall|b: int| 0 <= b < j2 as int && self.edge_live(b)
                            && !(#[trigger] self.edge_is_bridge(b)) ==> !LineSegment
                            ::spec_proper_cross(self.edge_segment(j1 as int),
                            self.edge_segment(b)),
                    decreases m - j2,
                {
                    let e2 = match self.edges[j2] {
                        Some(e) => e,
                        None => { j2 = j2 + 1; continue; },
                    };
                    proof {
                        assert(self.edge_live(j2 as int));
                        assert(self.edge_pair(j2 as int) == e2);
                        assert(self.live_node(e2.0 as int) && self.live_node(e2.1 as int));
                    }
                    let n2a = self.nodes[e2.0].unwrap();
                    let n2b = self.nodes[e2.1].unwrap();
                    if !(n2a.is_bridge && n2b.is_bridge) {
                        let seg2 = LineSegment { from: n2a.site, to: n2b.site };
                        proof {
                            assert(self.node_at(e2.0 as int).site.wf());
                            assert(self.node_at(e2.1 as int).site.wf());
                            assert(self.node_at(e1.0 as int).site.wf());
                            assert(self.node_at(e1.1 as int).site.wf());
                        }
                        if seg1.proper_cross(&seg2) {
                            proof {
                                assert(self.edge_live(j1 as int) && self.edge_live(
                                    j2 as int) && !self.edge_is_bridge(j1 as int)
                                    && !self.edge_is_bridge(j2 as int)
                                    && LineSegment::spec_proper_cross(self.edge_segment(
                                    j1 as int), self.edge_segment(j2 as int)));
                            }
                            return false;
                        }
                    }
                    j2 = j2 + 1;
                }
            } else {
                proof {
                    assert(self.edge_is_bridge(j1 as int));
                }
            }
            j1 = j1 + 1;
        }
        true
    }

    /// The node slots after dropping every orphan: a live node without
    /// any incident live edge is removed, everything else is kept.
    pub open spec fn optimized_nodes(self) -> Seq<Option<TransportNode>> {
        Seq::new(self.nodes_seq().len(), |i: int|
            if self.nodes_seq()[i] is Some && self.has_incident(i) {
                self.nodes_seq()[i]
            } else {
                None
            })
    }

    /// Some live edge has `i` as an endpoint.
    pub open spec fn has_incident(self, i: int) -> bool {
        exists|j: int| self.edge_live(j) && ((#[trigger] self.edge_pair(j)).0 == i
            || self.edge_pair(j).1 == i)
    }

    /// Drops every orphan node (a node with no incident edge) and
    /// returns the compacted network.  Edges and the ids of kept nodes
    /// are unchanged.
    pub fn into_optimized(self) -> (r: Self)
        requires
            self.wf(),
        ensures
            r.wf(),
            r.edges_seq() == self.edges_seq(),
            r.nodes_seq() == self.optimized_nodes(),
    {
        let mut me = self;
        let n: usize = me.nodes.len();
        let mut i: usize = 0;
        while i < n
            invariant
                me.wf(),
                n == me.nodes_seq().len(),
                i <= n,
                me.edges_seq() == self.edges_seq(),
                me.nodes_seq().len() == self.nodes_seq().len(),
                forall|t: int| i as int <= t < n as int ==> me.nodes_seq()[t]
                    == self.nodes_seq()[t],
                forall|t: int| 0 <= t < i as int ==> me.nodes_seq()[t]
                    == self.optimized_nodes()[t],
            decreases n - i,
        {
            let live: bool = match me.nodes[i] {
                Some(_) => true,
                None => false,
            };
            if live {
                let mut incident: bool = false;
                let mut j: usize = 0;
                while j < me.edges.len()
                    invariant
                        j <= me.edges_seq().len(),
                        i < n,
                        incident == exists|t: int| 0 <= t < j as int && me.edge_live(t)
                            && ((#[trigger] me.edge_pair(t)).0 == i as int
                            || me.edge_pair(t).1 == i as int),
                    decreases me.edges_seq().len() - j,
                {
                    match me.edges[j] {
                        Some(e) => {
                            if e.0 == i || e.1 == i {
                                proof {
                                    assert(me.edge_live(j as int) && (me.edge_pair(
                                        j as int).0 == i as int || me.edge_pair(
                                        j as int).1 == i as int));
                                }
                                incident = true;
                            }
                        },
                        None => {},
                    }
                    j = j + 1;
                }
                if !incident {
                    let ghost pre = me;
                    me.remove_node(NodeId(i));
                    proof {
                        assert(me.nodes_seq() == pre.nodes_seq().update(i as int, None));
                        assert(!self.has_incident(i as int)) by {
                            if self.has_incident(i as int) {
                                let t = choose|t: int| self.edge_live(t) && ((#[trigger]
                                    self.edge_pair(t)).0 == i as int || self.edge_pair(
                                    t).1 == i as int);
                                assert(pre.edge_live(t) && (pre.edge_pair(t).0 == i as int
                                    || pre.edge_pair(t).1 == i as int));
                                assert(false);
                            }
                        }
                    }
                } else {
                    proof {
                        let t = choose|t: int| 0 <= t < me.edges_seq().len()
                            && me.edge_live(t) && ((#[trigger] me.edge_pair(t)).0
                            == i as int || me.edge_pair(t).1 == i as int);
                        assert(self.edge_live(t) && ((self.edge_pair(t)).0 == i as int
                            || self.edge_pair(t).1 == i as int));
                        assert(self.has_incident(i as int));
                    }
                }
            }
            i = i + 1;
        }
        proof {
            assert(me.nodes_seq() =~= self.optimized_nodes());
        }
        me
    }
}

/// Dropping orphans twice is the same as dropping them once: a node
/// kept by the first pass has an incident edge, and edges never change.
pub proof fn lemma_into_optimized_idempotent(net: PathNetwork, once: PathNetwork)
    requires
        once.nodes_seq() == net.optimized_nodes(),
        once.edges_seq() == net.edges_seq(),
    ensures
        once.optimized_nodes() == once.nodes_seq(),
{
    assert forall|i: int| 0 <= i < once.nodes_seq().len() implies once.optimized_nodes()[
        i] == once.nodes_seq()[i] by {
        if once.nodes_seq()[i] is Some {
            assert(net.nodes_seq()[i] is Some && net.has_incident(i));
            let j = choose|j: int| net.edge_live(j) && ((#[trigger] net.edge_pair(j)).0
                == i || net.edge_pair(j).1 == i);
            assert(once.edge_live(j) && (once.edge_pair(j).0 == i || once.edge_pair(j).1
                == i));
            assert(once.has_incident(i));
        }
    }
    assert(once.optimized_nodes() =~= once.nodes_seq());
}

/// A member of the node multiset names a live slot with that site, and
/// conversely.
proof fn lemma_node_elems_mem(nodes: Seq<Option<TransportNode>>, n: int, e: (i64, i64, u64))
    requires
        0 <= n <= nodes.len(),
        n <= 0xFFFF_FFFF_FFFF_FFFF,
        node_elems_upto(nodes, n).count(e) > 0,
    ensures
        0 <= e.2 as int && (e.2 as int) < n,
        nodes[(e.2 as int)] is Some,
        nodes[(e.2 as int)].unwrap().site.x == e.0,
        nodes[(e.2 as int)].unwrap().site.y == e.1,
    decreases n,
{
    broadcast use vstd::multiset::group_multiset_axioms;
    if n > 0 {
        match nodes[n - 1] {
            Some(nd) => {
                if node_elem_of(n - 1, nd) == e {
                    assert(e.2 == (n - 1) as u64);
                    assert(e.2 as int == n - 1);
                } else {
                    lemma_node_elems_mem(nodes, n - 1, e);
                }
            },
            None => {
                lemma_node_elems_mem(nodes, n - 1, e);
            },
        }
    }
}

/// A live slot's element is a member of the node multiset.
proof fn lemma_node_elems_mem_intro(nodes: Seq<Option<TransportNode>>, n: int, i: int)
    requires
        0 <= i < n <= nodes.len(),
        nodes[i] is Some,
    ensures
        node_elems_upto(nodes, n).count((nodes[i].unwrap().site.x,
            nodes[i].unwrap().site.y, i as u64)) > 0,
    decreases n,
{
    lemma_node_elem_count_pos(nodes, i, n);
}

/// A member of the edge multiset names a live edge slot whose element
/// it is.
proof fn lemma_edge_elems_mem(
    nodes: Seq<Option<TransportNode>>,
    edges: Seq<Option<(usize, usize)>>,
    m: int,
    e: (i64, i64, i64, i64, u64, u64),
)
    requires
        0 <= m <= edges.len(),
        edge_elems_upto(nodes, edges, m).count(e) > 0,
    ensures
        exists|j: int| 0 <= j < m && edges[j] is Some && edge_elem_of(nodes, (#[trigger]
            edges[j]).unwrap().0 as int, edges[j].unwrap().1 as int) == e,
    decreases m,
{
    broadcast use vstd::multiset::group_multiset_axioms;
    if m > 0 {
        match edges[m - 1] {
            Some(ed) => {
                if edge_elem_of(nodes, ed.0 as int, ed.1 as int) == e {
                    assert(0 <= m - 1 < m && edges[m - 1] is Some && edge_elem_of(
                        nodes, (edges[m - 1]).unwrap().0 as int,
                        edges[m - 1].unwrap().1 as int) == e);
                } else {
                    lemma_edge_elems_mem(nodes, edges, m - 1, e);
                }
            },
            None => {
                lemma_edge_elems_mem(nodes, edges, m - 1, e);
            },
        }
    }
}

/// A live edge slot's element is a member of the edge multiset.
proof fn lemma_edge_elems_mem_intro(
    nodes: Seq<Option<TransportNode>>,
    edges: Seq<Option<(usize, usize)>>,
    m: int,
    j: int,
)
    requires
        0 <= j < m <= edges.len(),
        edges[j] is Some,
    ensures
        edge_elems_upto(nodes, edges, m).count(edge_elem_of(
            nodes, edges[j].unwrap().0 as int, edges[j].unwrap().1 as int)) > 0,
    decreases m,
{
    lemma_edge_elem_count_pos(nodes, edges, j, m);
}

/// A site strictly within `rad` of a segment lies inside the segment's
/// bounding box inflated by `rad` on every side.
proof fn lemma_dist_lt_in_box(s: LineSegment, p: Site, rad: int)
    requires
        s.wf(),
        p.wf(),
        0 <= rad,
        LineSegment::spec_dist_lt(s, p, rad),
    ensures
        min_i(s.from.x as int, s.to.x as int) - rad <= p.x as int <= max_i(
            s.from.x as int, s.to.x as int) + rad,
        min_i(s.from.y as int, s.to.y as int) - rad <= p.y as int <= max_i(
            s.from.y as int, s.to.y as int) + rad,
{
    let abx = s.to.x - s.from.x;
    let aby = s.to.y - s.from.y;
    let apx = p.x - s.from.x;
    let apy = p.y - s.from.y;
    let ab_ap = abx * apx + aby * apy;
    let ab_bp = abx * (p.x - s.to.x) + aby * (p.y - s.to.y);
    assert(ab_bp == ab_ap - (abx * abx + aby * aby)) by (nonlinear_arith)
        requires
            abx == s.to.x - s.from.x,
            aby == s.to.y - s.from.y,
            apx == p.x - s.from.x,
            apy == p.y - s.from.y,
            ab_ap == abx * apx + aby * apy,
            ab_bp == abx * ((p.x as int) - s.to.x) + aby * ((p.y as int) - s.to.y),
    {}
    if ab_ap <= 0 {
        let d2 = Site::spec_dist2(s.from, p);
        assert(-rad <= apx <= rad && -rad <= apy <= rad) by (nonlinear_arith)
            requires
                d2 == ((s.from.x as int) - p.x) * ((s.from.x as int) - p.x) + ((
                    s.from.y as int) - p.y) * ((s.from.y as int) - p.y),
                apx == p.x - s.from.x,
                apy == p.y - s.from.y,
                d2 < rad * rad,
                0 <= rad,
        {}
    } else if ab_bp >= 0 {
        let bpx = p.x - s.to.x;
        let bpy = p.y - s.to.y;
        let d2 = Site::spec_dist2(s.to, p);
        assert(-rad <= bpx <= rad && -rad <= bpy <= rad) by (nonlinear_arith)
            requires
                d2 == ((s.to.x as int) - p.x) * ((s.to.x as int) - p.x) + ((
                    s.to.y as int) - p.y) * ((s.to.y as int) - p.y),
                bpx == p.x - s.to.x,
                bpy == p.y - s.to.y,
                d2 < rad * rad,
                0 <= rad,
        {}
    } else {
        let len2 = abx * abx + aby * aby;
        let c = spec_orient(s.from, s.to, p);
        assert(c == abx * apy - aby * apx);
        assert(len2 > 0) by (nonlinear_arith)
            requires
                len2 == abx * abx + aby * aby,
                ab_ap == abx * apx + aby * apy,
                ab_ap > 0,
        {}
        assert(Site::spec_dist2(s.from, s.to) == len2) by (nonlinear_arith)
            requires
                abx == s.to.x - s.from.x,
                aby == s.to.y - s.from.y,
                len2 == abx * abx + aby * aby,
                Site::spec_dist2(s.from, s.to) == ((s.from.x as int) - s.to.x) * ((
                    s.from.x as int) - s.to.x) + ((s.from.y as int) - s.to.y) * ((
                    s.from.y as int) - s.to.y),
        {}
        lemma_axis_bound(abx, aby, apx, apy, ab_ap, len2, c, rad);
        assert((-c) * (-c) == c * c) by (nonlinear_arith) {}
        lemma_axis_bound(aby, abx, apy, apx, ab_ap, len2, -c, rad);
    }
}

/// In the interior-projection case, one coordinate of the foot of the
/// perpendicular lies between the segment ends, so the point's
/// coordinate strays from the segment's range by less than the
/// distance bound.
#[verifier::rlimit(60)]
proof fn lemma_axis_bound(
    abx: int,
    aby: int,
    apx: int,
    apy: int,
    dot: int,
    len2: int,
    c: int,
    rad: int,
)
    requires
        len2 == abx * abx + aby * aby,
        dot == abx * apx + aby * apy,
        c == abx * apy - aby * apx,
        0 < dot < len2,
        c * c < rad * rad * len2,
        0 <= rad,
    ensures
        min_i(0, abx) - rad <= apx <= max_i(0, abx) + rad,
{
    let xv = len2 * apx - abx * dot;
    assert(xv == -aby * c) by (nonlinear_arith)
        requires
            xv == len2 * apx - abx * dot,
            len2 == abx * abx + aby * aby,
            dot == abx * apx + aby * apy,
            c == abx * apy - aby * apx,
    {}
    assert(xv * xv <= len2 * (c * c)) by (nonlinear_arith)
        requires
            xv == -aby * c,
            len2 == abx * abx + aby * aby,
    {}
    assert(xv * xv < (rad * len2) * (rad * len2)) by (nonlinear_arith)
        requires
            xv * xv <= len2 * (c * c),
            c * c < rad * rad * len2,
            len2 > 0,
            0 <= rad,
    {}
    assert(-(rad * len2) <= xv <= rad * len2) by (nonlinear_arith)
        requires
            xv * xv < (rad * len2) * (rad * len2),
            0 <= rad * len2,
    {}
    assert(min_i(0, abx) * len2 <= abx * dot <= max_i(0, abx) * len2)
        by (nonlinear_arith)
        requires
            0 < dot < len2,
    {}
    assert((min_i(0, abx) - rad) * len2 <= len2 * apx <= (max_i(0, abx) + rad) * len2)
        by (nonlinear_arith)
        requires
            len2 * apx == abx * dot + xv,
            min_i(0, abx) * len2 <= abx * dot,
            abx * dot <= max_i(0, abx) * len2,
            -(rad * len2) <= xv <= rad * len2,
            len2 > 0,
    {}
    assert(min_i(0, abx) - rad <= apx <= max_i(0, abx) + rad) by (nonlinear_arith)
        requires
            (min_i(0, abx) - rad) * len2 <= len2 * apx,
            len2 * apx <= (max_i(0, abx) + rad) * len2,
            len2 > 0,
    {}
}

/// Node elements depend only on the first `n` slots.
proof fn lemma_node_elems_prefix(
    n1: Seq<Option<TransportNode>>,
    n2: Seq<Option<TransportNode>>,
    n: int,
)
    requires
        0 <= n <= n1.len(),
        n <= n2.len(),
        forall|i: int| 0 <= i < n ==> n1[i] == n2[i],
    ensures
        node_elems_upto(n1, n) == node_elems_upto(n2, n),
    decreases n,
{
    if n > 0 {
        lemma_node_elems_prefix(n1, n2, n - 1);
    }
}

/// Edge elements depend on nodes only through the slots the first `m`
/// edges name.
proof fn lemma_edge_elems_nodes_prefix(
    n1: Seq<Option<TransportNode>>,
    n2: Seq<Option<TransportNode>>,
    edges: Seq<Option<(usize, usize)>>,
    m: int,
)
    requires
        0 <= m <= edges.len(),
        forall|i: int| 0 <= i < n1.len() ==> #[trigger] n2[i] == n1[i],
        n1.len() <= n2.len(),
        forall|j: int| 0 <= j < m && edges[j] is Some ==> 0 <= (#[trigger] edges[
            j]).unwrap().0 < n1.len() && 0 <= edges[j].unwrap().1 < n1.len(),
    ensures
        edge_elems_upto(n1, edges, m) == edge_elems_upto(n2, edges, m),
    decreases m,
{
    if m > 0 {
        lemma_edge_elems_nodes_prefix(n1, n2, edges, m - 1);
    }
}

/// Edge elements are unchanged where the nodes changed only in a slot
/// no edge names.
proof fn lemma_edge_elems_nodes_untouched(
    n1: Seq<Option<TransportNode>>,
    n2: Seq<Option<TransportNode>>,
    edges: Seq<Option<(usize, usize)>>,
    m: int,
    skip: int,
)
    requires
        0 <= m <= edges.len(),
        n1.len() == n2.len(),
        forall|i: int| 0 <= i < n1.len() && i != skip ==> #[trigger] n2[i] == n1[i],
        forall|j: int| 0 <= j < m && edges[j] is Some ==> 0 <= (#[trigger] edges[
            j]).unwrap().0 < n1.len() && 0 <= edges[j].unwrap().1 < n1.len() && edges[
            j].unwrap().0 != skip && edges[j].unwrap().1 != skip,
    ensures
        edge_elems_upto(n1, edges, m) == edge_elems_upto(n2, edges, m),
    decreases m,
{
    if m > 0 {
        lemma_edge_elems_nodes_untouched(n1, n2, edges, m - 1, skip);
    }
}

/// Edge elements depend only on the first `m` edge slots.
proof fn lemma_edge_elems_edges_prefix(
    nodes: Seq<Option<TransportNode>>,
    e1: Seq<Option<(usize, usize)>>,
    e2: Seq<Option<(usize, usize)>>,
    m: int,
)
    requires
        0 <= m <= e1.len(),
        m <= e2.len(),
        forall|j: int| 0 <= j < m ==> e1[j] == e2[j],
    ensures
        edge_elems_upto(nodes, e1, m) == edge_elems_upto(nodes, e2, m),
    decreases m,
{
    if m > 0 {
        lemma_edge_elems_edges_prefix(nodes, e1, e2, m - 1);
    }
}

/// Emptying one live edge slot takes exactly its element out of the
/// edge multiset.
proof fn lemma_edge_elems_update_none(
    nodes: Seq<Option<TransportNode>>,
    e1: Seq<Option<(usize, usize)>>,
    e2: Seq<Option<(usize, usize)>>,
    j: int,
    m: int,
)
    requires
        0 <= j < m <= e1.len(),
        e1[j] is Some,
        e2 == e1.update(j, None::<(usize, usize)>),
    ensures
        edge_elems_upto(nodes, e2, m) == edge_elems_upto(nodes, e1, m).remove(
            edge_elem_of(nodes, e1[j].unwrap().0 as int, e1[j].unwrap().1 as int)),
    decreases m,
{
    broadcast use vstd::multiset::group_multiset_axioms;
    let ej = edge_elem_of(nodes, e1[j].unwrap().0 as int, e1[j].unwrap().1 as int);
    if m - 1 == j {
        lemma_edge_elems_edges_prefix(nodes, e1, e2, m - 1);
        assert(edge_elems_upto(nodes, e1, m) == edge_elems_upto(nodes, e1, m - 1).insert(
            ej));
        assert(edge_elems_upto(nodes, e2, m) == edge_elems_upto(nodes, e2, m - 1));
        assert(edge_elems_upto(nodes, e1, m - 1).insert(ej).remove(ej) =~= edge_elems_upto(
            nodes, e1, m - 1));
    } else {
        lemma_edge_elems_update_none(nodes, e1, e2, j, m - 1);
        match e1[m - 1] {
            Some(e) => {
                let em = edge_elem_of(nodes, e.0 as int, e.1 as int);
                lemma_edge_elem_count_pos(nodes, e1, j, m - 1);
                assert(edge_elems_upto(nodes, e1, m - 1).remove(ej).insert(em)
                    =~= edge_elems_upto(nodes, e1, m - 1).insert(em).remove(ej));
            },
            None => {},
        }
    }
}

/// A live edge slot's element is counted in the edge multiset.
proof fn lemma_edge_elem_count_pos(
    nodes: Seq<Option<TransportNode>>,
    edges: Seq<Option<(usize, usize)>>,
    j: int,
    m: int,
)
    requires
        0 <= j < m <= edges.len(),
        edges[j] is Some,
    ensures
        edge_elems_upto(nodes, edges, m).count(edge_elem_of(
            nodes, edges[j].unwrap().0 as int, edges[j].unwrap().1 as int)) > 0,
    decreases m,
{
    broadcast use vstd::multiset::group_multiset_axioms;
    if m - 1 > j {
        lemma_edge_elem_count_pos(nodes, edges, j, m - 1);
    }
}

/// Emptying one live node slot takes exactly its element out of the
/// node multiset.
proof fn lemma_node_elems_update_none(
    n1: Seq<Option<TransportNode>>,
    n2: Seq<Option<TransportNode>>,
    i: int,
    n: int,
)
    requires
        0 <= i < n <= n1.len(),
        n1[i] is Some,
        n2 == n1.update(i, None::<TransportNode>),
    ensures
        node_elems_upto(n2, n) == node_elems_upto(n1, n).remove(
            node_elem_of(i, n1[i].unwrap())),
    decreases n,
{
    broadcast use vstd::multiset::group_multiset_axioms;
    let ei = node_elem_of(i, n1[i].unwrap());
    if n - 1 == i {
        lemma_node_elems_prefix(n1, n2, n - 1);
        assert(node_elems_upto(n1, n - 1).insert(ei).remove(ei) =~= node_elems_upto(
            n1, n - 1));
    } else {
        lemma_node_elems_update_none(n1, n2, i, n - 1);
        match n1[n - 1] {
            Some(nd) => {
                let em = node_elem_of(n - 1, nd);
                lemma_node_elem_count_pos(n1, i, n - 1);
                assert(node_elems_upto(n1, n - 1).remove(ei).insert(em)
                    =~= node_elems_upto(n1, n - 1).insert(em).remove(ei));
            },
            None => {},
        }
    }
}

/// A live node slot's element is counted in the node multiset.
proof fn lemma_node_elem_count_pos(nodes: Seq<Option<TransportNode>>, i: int, n: int)
    requires
        0 <= i < n <= nodes.len(),
        nodes[i] is Some,
    ensures
        node_elems_upto(nodes, n).count(node_elem_of(i, nodes[i].unwrap())) > 0,
    decreases n,
{
    broadcast use vstd::multiset::group_multiset_axioms;
    if n - 1 > i {
        lemma_node_elem_count_pos(nodes, i, n - 1);
    }
}

} // verus!
