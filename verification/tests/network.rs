//! Path network tests: graph invariants, spatial queries, compaction.

use transport_growth::geom::LineSegment;
use transport_growth::geom::Site;
use transport_growth::network::NodeId;
use transport_growth::network::PathNetwork;
use transport_growth::network::TransportNode;
use transport_growth::stage::Stage;

fn node(x: i64, y: i64) -> TransportNode {
    TransportNode::new(Site::new(x, y), Stage::new(0), false)
}

#[test]
fn add_path_rejects_self_loops_dead_ids_and_duplicates() {
    let mut net = PathNetwork::new();
    let a = net.add_node(node(0, 0));
    let b = net.add_node(node(1000, 0));
    assert!(!net.add_path(a, a));
    assert!(!net.add_path(a, NodeId(77)));
    assert!(net.add_path(a, b));
    assert!(!net.add_path(b, a));
    assert_eq!(net.live_edges().len(), 1);
}

#[test]
fn remove_path_frees_the_edge_and_its_index_entry() {
    let mut net = PathNetwork::new();
    let a = net.add_node(node(0, 0));
    let b = net.add_node(node(1000, 0));
    assert!(net.add_path(a, b));
    let touching = net.paths_touching_rect(Site::new(-10, -10), Site::new(2000, 10));
    assert_eq!(touching.len(), 1);
    assert!(net.remove_path(a, b));
    assert!(!net.remove_path(a, b));
    assert_eq!(net.live_edges().len(), 0);
    let touching_after =
        net.paths_touching_rect(Site::new(-10, -10), Site::new(2000, 10));
    assert_eq!(touching_after.len(), 0);
}

#[test]
fn nodes_around_line_is_exact() {
    let mut net = PathNetwork::new();
    let a = net.add_node(node(0, 0));
    let b = net.add_node(node(500, 40));
    let c = net.add_node(node(500, 500));
    let _ = (a, c);
    let seg = LineSegment::new(Site::new(0, 0), Site::new(1000, 0));
    let hits = net.nodes_around_line(seg, 100);
    // within a 100 radius of the segment: the origin and the near node
    assert_eq!(hits.len(), 2);
    assert!(hits.contains(&NodeId(0)));
    assert!(hits.contains(&b));
    // the round trip: a world-wide radius returns every live node
    let everyone = net.nodes_around_line(seg, 100_000_000);
    assert_eq!(everyone.len(), 3);
}

#[test]
fn paths_touching_rect_is_exact() {
    let mut net = PathNetwork::new();
    let a = net.add_node(node(0, 0));
    let b = net.add_node(node(1000, 0));
    let c = net.add_node(node(5000, 5000));
    let d = net.add_node(node(6000, 5000));
    assert!(net.add_path(a, b));
    assert!(net.add_path(c, d));
    let near = net.paths_touching_rect(Site::new(-100, -100), Site::new(1100, 100));
    assert_eq!(near, vec![(a, b)]);
    let all = net.paths_touching_rect(Site::new(-100, -100), Site::new(7000, 6000));
    assert_eq!(all.len(), 2);
}

#[test]
fn quasi_planarity_checker_sees_proper_crossings() {
    let mut net = PathNetwork::new();
    let a = net.add_node(node(0, 0));
    let b = net.add_node(node(2000, 0));
    let c = net.add_node(node(1000, -1000));
    let d = net.add_node(node(1000, 1000));
    assert!(net.add_path(a, b));
    assert!(net.is_quasi_planar());
    assert!(net.add_path(c, d));
    assert!(!net.is_quasi_planar());
}

#[test]
fn bridges_are_exempt_from_planarity() {
    let mut net = PathNetwork::new();
    let a = net.add_node(node(0, 0));
    let b = net.add_node(node(2000, 0));
    let c = net.add_node(TransportNode::new(Site::new(1000, -1000), Stage::new(0), true));
    let d = net.add_node(TransportNode::new(Site::new(1000, 1000), Stage::new(0), true));
    assert!(net.add_path(a, b));
    assert!(net.add_path(c, d));
    assert!(net.is_quasi_planar());
}

#[test]
fn into_optimized_drops_orphans_and_is_idempotent() {
    let mut net = PathNetwork::new();
    let a = net.add_node(node(0, 0));
    let b = net.add_node(node(1000, 0));
    let _orphan = net.add_node(node(9000, 9000));
    assert!(net.add_path(a, b));
    let once = net.into_optimized();
    assert_eq!(once.live_nodes().len(), 2);
    assert_eq!(once.live_edges(), vec![(a, b)]);
    let nodes_once = once.live_nodes();
    let edges_once = once.live_edges();
    let twice = once.into_optimized();
    assert_eq!(twice.live_nodes(), nodes_once);
    assert_eq!(twice.live_edges(), edges_once);
}

#[test]
fn remove_node_frees_the_slot_and_the_index_entry() {
    let mut net = PathNetwork::new();
    let a = net.add_node(node(0, 0));
    let b = net.add_node(node(1000, 0));
    net.remove_node(b);
    assert_eq!(net.get_node(b), None);
    assert!(net.get_node(a).is_some());
    let seg = LineSegment::new(Site::new(0, 0), Site::new(1000, 0));
    let hits = net.nodes_around_line(seg, 100_000_000);
    assert_eq!(hits, vec![a]);
}
