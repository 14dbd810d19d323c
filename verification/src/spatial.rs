//! Trusted bindings to the rstar R-tree spatial index.
//!
//! The network keeps two R-trees: one of node sites with their ids, one
//! of edge bounding rectangles with their id pairs.  Each tree's
//! contents are named by an uninterpreted multiset, and every method
//! the engine calls is wrapped with a contract over that name, taken
//! from rstar's source: insertion keeps duplicates, removal takes one
//! equal element out, and an envelope query yields exactly the elements
//! whose envelope meets the closed query rectangle.

use vstd::prelude::*;
use vstd::multiset::Multiset;
use crate::geom::MAX_COORD;
use rstar::AABB;
use rstar::RTree;
use rstar::primitives::GeomWithData;
use rstar::primitives::Rectangle;

verus! {

/// The spatial index over node sites: each element is a site with the
/// id of the node standing there.  The held R-tree is opaque; the
/// contents name below is all that is known of it.
#[verifier::external_body]
pub struct NodeTree {
    tree: RTree<GeomWithData<[i64; 2], u64>>,
}

/// The spatial index over edge bounding rectangles: each element is a
/// rectangle with the unordered id pair of the edge it bounds.  The
/// held R-tree is opaque; the contents name below is all that is known
/// of it.
#[verifier::external_body]
pub struct EdgeTree {
    tree: RTree<GeomWithData<Rectangle<[i64; 2]>, (u64, u64)>>,
}

/// What a node tree holds: a multiset of (x, y, id) triples.
pub uninterp spec fn node_tree_set(t: NodeTree) -> Multiset<(i64, i64, u64)>;

/// What an edge tree holds: a multiset of (corner, corner, id pair)
/// entries, corners ordered low before high on both axes.
pub uninterp spec fn edge_tree_set(t: EdgeTree) -> Multiset<(i64, i64, i64, i64, u64, u64)>;

/// Relies on rstar::RTree::new: a fresh tree holds nothing.
#[verifier::external_body]
pub(crate) fn node_tree_new() -> (t: NodeTree)
    ensures
        node_tree_set(t) == Multiset::<(i64, i64, u64)>::empty(),
{
    NodeTree { tree: RTree::new() }
}

/// Relies on rstar::RTree::insert: the element is added; an equal one
/// already present is kept beside it.  Coordinates are confined to the
/// world so rstar's internal envelope arithmetic cannot overflow.
#[verifier::external_body]
pub(crate) fn node_tree_insert(t: &mut NodeTree, x: i64, y: i64, id: u64)
    requires
        -MAX_COORD <= x <= MAX_COORD,
        -MAX_COORD <= y <= MAX_COORD,
    ensures
        node_tree_set(*final(t)) == node_tree_set(*old(t)).insert((x, y, id)),
{
    t.tree.insert(GeomWithData::new([x, y], id));
}

/// Relies on rstar::RTree::remove: one element equal to the given one
/// is taken out if any is present, and the call says whether one was.
#[verifier::external_body]
pub(crate) fn node_tree_remove(t: &mut NodeTree, x: i64, y: i64, id: u64) -> (r: bool)
    ensures
        node_tree_set(*old(t)).count((x, y, id)) > 0 ==> r && node_tree_set(*final(t))
            == node_tree_set(*old(t)).remove((x, y, id)),
        node_tree_set(*old(t)).count((x, y, id)) == 0 ==> !r && node_tree_set(*final(t))
            == node_tree_set(*old(t)),
{
    t.tree.remove(&GeomWithData::new([x, y], id)).is_some()
}

/// Relies on rstar::RTree::locate_in_envelope_intersecting: every
/// element whose envelope meets the closed query rectangle is yielded,
/// and no other; a point's envelope meets it exactly when the point
/// lies inside it.  The order of the yield is left unspecified.
#[verifier::external_body]
pub(crate) fn node_tree_in_rect(
    t: &NodeTree,
    lx: i64,
    ly: i64,
    ux: i64,
    uy: i64,
) -> (r: Vec<(i64, i64, u64)>)
    requires
        lx <= ux,
        ly <= uy,
    ensures
        r@.to_multiset() == node_tree_set(*t).filter(
            (|e: (i64, i64, u64)| lx <= e.0 <= ux && ly <= e.1 <= uy)),
{
    t.tree.locate_in_envelope_intersecting(AABB::from_corners([lx, ly], [ux, uy]))
        .map(|e| (e.geom()[0], e.geom()[1], e.data))
        .collect()
}

/// Relies on rstar::RTree::new: a fresh tree holds nothing.
#[verifier::external_body]
pub(crate) fn edge_tree_new() -> (t: EdgeTree)
    ensures
        edge_tree_set(t) == Multiset::<(i64, i64, i64, i64, u64, u64)>::empty(),
{
    EdgeTree { tree: RTree::new() }
}

/// Relies on rstar::RTree::insert: the element is added; an equal one
/// already present is kept beside it.  Corners are confined to the
/// world so rstar's internal envelope arithmetic cannot overflow.
#[verifier::external_body]
pub(crate) fn edge_tree_insert(
    t: &mut EdgeTree,
    lx: i64,
    ly: i64,
    ux: i64,
    uy: i64,
    a: u64,
    b: u64,
)
    requires
        lx <= ux,
        ly <= uy,
        -MAX_COORD <= lx <= MAX_COORD,
        -MAX_COORD <= ly <= MAX_COORD,
        -MAX_COORD <= ux <= MAX_COORD,
        -MAX_COORD <= uy <= MAX_COORD,
    ensures
        edge_tree_set(*final(t)) == edge_tree_set(*old(t)).insert((lx, ly, ux, uy, a, b)),
{
    t.tree.insert(GeomWithData::new(Rectangle::from_corners([lx, ly], [ux, uy]), (a, b)));
}

/// Relies on rstar::RTree::remove: one element equal to the given one
/// is taken out if any is present, and the call says whether one was.
#[verifier::external_body]
pub(crate) fn edge_tree_remove(
    t: &mut EdgeTree,
    lx: i64,
    ly: i64,
    ux: i64,
    uy: i64,
    a: u64,
    b: u64,
) -> (r: bool)
    requires
        lx <= ux,
        ly <= uy,
    ensures
        edge_tree_set(*old(t)).count((lx, ly, ux, uy, a, b)) > 0 ==> r && edge_tree_set(
            *final(t)) == edge_tree_set(*old(t)).remove((lx, ly, ux, uy, a, b)),
        edge_tree_set(*old(t)).count((lx, ly, ux, uy, a, b)) == 0 ==> !r && edge_tree_set(
            *final(t)) == edge_tree_set(*old(t)),
{
    t.tree.remove(&GeomWithData::new(Rectangle::from_corners([lx, ly], [ux, uy]), (a, b)))
        .is_some()
}

/// Relies on rstar::RTree::locate_in_envelope_intersecting: every
/// element whose envelope meets the closed query rectangle is yielded,
/// and no other; a stored rectangle's envelope is itself, and two
/// closed rectangles meet exactly when they overlap on both axes.  The
/// order of the yield is left unspecified.
#[verifier::external_body]
pub(crate) fn edge_tree_in_rect(
    t: &EdgeTree,
    lx: i64,
    ly: i64,
    ux: i64,
    uy: i64,
) -> (r: Vec<(i64, i64, i64, i64, u64, u64)>)
    requires
        lx <= ux,
        ly <= uy,
    ensures
        r@.to_multiset() == edge_tree_set(*t).filter(
            (|e: (i64, i64, i64, i64, u64, u64)| e.0 <= ux && lx <= e.2 && e.1 <= uy
                && ly <= e.3)),
{
    t.tree.locate_in_envelope_intersecting(AABB::from_corners([lx, ly], [ux, uy]))
        .map(|e| {
            let l = e.geom().lower();
            let u = e.geom().upper();
            (l[0], l[1], u[0], u[1], e.data.0, e.data.1)
        })
        .collect()
}

} // verus!
