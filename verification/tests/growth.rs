//! Growth engine scenarios: straight growth, snapping, splitting,
//! slope rejection, branch staging, determinism and origin symmetry.

use transport_growth::angle::Angle;
use transport_growth::builder::TransportBuilder;
use transport_growth::geom::Site;
use transport_growth::network::NodeId;
use transport_growth::network::TransportNode;
use transport_growth::providers::LcgRandom;
use transport_growth::providers::MockSameRuleProvider;
use transport_growth::providers::MockSurfaceTerrain;
use transport_growth::providers::MockVoronoiTerrain;
use transport_growth::rules::BranchRules;
use transport_growth::rules::GrowthRuleElevationDiff;
use transport_growth::rules::PathDirectionRules;
use transport_growth::rules::PathMetrics;
use transport_growth::rules::TransportRule;
use transport_growth::stage::Stage;
use transport_growth::stump::GrowthTypes;
use transport_growth::stump::NextNodeType;
use transport_growth::stump::NodeStump;
use transport_growth::stump::PathParams;
use transport_growth::stump::RelatedNode;

fn straight_rule() -> TransportRule {
    TransportRule::default()
        .path_normal_length(1000)
        .path_extra_length_for_intersection(700)
        .path_direction_rule(PathDirectionRules { max_angle: 0, comparison_step: 1 })
}

fn sites_of(net: &transport_growth::network::PathNetwork) -> Vec<(i64, i64)> {
    net.live_nodes().iter().map(|(_, n)| (n.site.x, n.site.y)).collect()
}

#[test]
fn straight_growth_on_a_flat_world() {
    // a flat world, one seed, no branching: the path marches straight
    // out in both directions, the forward stump popping first
    let provider = MockSameRuleProvider::new(straight_rule());
    let terrain = MockSurfaceTerrain::new(0);
    let mut rng = LcgRandom::new(7);
    let builder = TransportBuilder::new(provider);
    let builder = builder.add_origin(Site::new(0, 0), 0, None).unwrap();
    let builder = builder.iterate_n_times(5, &terrain, &mut rng);
    let net = builder.build();
    let sites = sites_of(&net);
    assert_eq!(
        sites,
        vec![(0, 0), (1000, 0), (-1000, 0), (2000, 0), (-2000, 0), (3000, 0)]
    );
    assert_eq!(net.live_edges().len(), 5);
    assert!(net.is_quasi_planar());
}

fn stump_with(rule: TransportRule) -> NodeStump {
    NodeStump::new(NodeId(0), Angle::new(0), PathParams {
        stage: Stage::new(0),
        rules_start: rule,
        metrics: PathMetrics::new(),
        evaluation: 0,
    })
}

#[test]
fn classifier_snaps_to_a_near_existing_node() {
    // the expected end is (4000, 0) but a node sits 50 off the
    // proposed segment, well within the 700 search width
    let stump = stump_with(straight_rule());
    let start = TransportNode::new(Site::new(3000, 0), Stage::new(0), false);
    let end = TransportNode::new(Site::new(4000, 0), Stage::new(0), false);
    let near = vec![RelatedNode {
        node: TransportNode::new(Site::new(3300, 50), Stage::new(0), false),
        node_id: NodeId(9),
    }];
    let terrain = MockSurfaceTerrain::new(0);
    let growth: GrowthTypes =
        stump.determine_growth(&start, &end, &near, &vec![], &terrain);
    assert_eq!(growth.next_node, NextNodeType::Existing(NodeId(9)));
}

#[test]
fn classifier_splits_a_crossed_edge() {
    // a vertical extension meets a horizontal edge: the edge is split
    // at the crossing point
    let stump = NodeStump::new(NodeId(2), Angle::new(90_000), PathParams {
        stage: Stage::new(0),
        rules_start: straight_rule().path_normal_length(2000),
        metrics: PathMetrics::new(),
        evaluation: 0,
    });
    let start = TransportNode::new(Site::new(1000, -1000), Stage::new(0), false);
    let end = TransportNode::new(Site::new(1000, 1000), Stage::new(0), false);
    let pa = RelatedNode {
        node: TransportNode::new(Site::new(0, 0), Stage::new(0), false),
        node_id: NodeId(0),
    };
    let pb = RelatedNode {
        node: TransportNode::new(Site::new(2000, 0), Stage::new(0), false),
        node_id: NodeId(1),
    };
    let terrain = MockSurfaceTerrain::new(0);
    let growth = stump.determine_growth(&start, &end, &vec![], &vec![(pa, pb)], &terrain);
    match growth.next_node {
        NextNodeType::Intersect(n, ids) => {
            assert_eq!(n.site, Site::new(1000, 0));
            assert_eq!(n.stage, Stage::new(0));
            assert!(!n.is_bridge);
            assert_eq!(ids, (NodeId(0), NodeId(1)));
        },
        other => panic!("expected a split, got {:?}", other),
    }
}

#[test]
fn classifier_aborts_on_a_bridge_crossing() {
    // the same crossing, but the crossed edge is a bridge: nothing may
    // cross it, so the step aborts
    let stump = NodeStump::new(NodeId(2), Angle::new(90_000), PathParams {
        stage: Stage::new(0),
        rules_start: straight_rule().path_normal_length(2000),
        metrics: PathMetrics::new(),
        evaluation: 0,
    });
    let start = TransportNode::new(Site::new(1000, -1000), Stage::new(0), false);
    let end = TransportNode::new(Site::new(1000, 1000), Stage::new(0), false);
    let pa = RelatedNode {
        node: TransportNode::new(Site::new(0, 0), Stage::new(0), true),
        node_id: NodeId(0),
    };
    let pb = RelatedNode {
        node: TransportNode::new(Site::new(2000, 0), Stage::new(0), true),
        node_id: NodeId(1),
    };
    let terrain = MockSurfaceTerrain::new(0);
    let growth = stump.determine_growth(&start, &end, &vec![], &vec![(pa, pb)], &terrain);
    assert_eq!(growth.next_node, NextNodeType::Abort);
}

#[test]
fn slope_rejection_stops_uphill_growth() {
    // terrain rises steeply toward +x; the slope limit rejects the
    // eastward extension while the flat westward one still grows
    let rule = straight_rule()
        .path_slope_elevation_diff_limit(GrowthRuleElevationDiff::Linear(10_000));
    let provider = MockSameRuleProvider::new(rule);
    let terrain = MockVoronoiTerrain::new(vec![
        (Site::new(0, 0), 0),
        (Site::new(1000, 0), 100_000),
    ]);
    let mut rng = LcgRandom::new(7);
    let builder = TransportBuilder::new(provider);
    let builder = builder.add_origin(Site::new(0, 0), 0, None).unwrap();
    let builder = builder.iterate_n_times(3, &terrain, &mut rng);
    let net = builder.build();
    for (_, n) in net.live_nodes() {
        assert!(n.site.x <= 0, "grew uphill to {:?}", n.site);
    }
}

#[test]
fn branch_staging_promotes_perpendicular_children() {
    // certain branching with certain staging: one step yields the
    // straight child at the parent stage and two perpendicular
    // children one stage finer
    let rule = straight_rule().branch_rule(BranchRules {
        branch_density: 1_000_000_000,
        staging_probability: 1_000_000_000,
    });
    let provider = MockSameRuleProvider::new(rule);
    let terrain = MockSurfaceTerrain::new(0);
    let mut rng = LcgRandom::new(7);
    let builder = TransportBuilder::new(provider);
    let builder = builder.add_origin(Site::new(0, 0), 0, None).unwrap();
    let builder = builder.iterate_n_times(1, &terrain, &mut rng);
    let cands = builder.candidates();
    // the backward seed stump plus three children of the grown step
    assert_eq!(cands.len(), 4);
    let back = &cands[0];
    assert_eq!(back.angle_expected().as_mdeg(), 180_000);
    let straight = &cands[1];
    assert_eq!(straight.angle_expected().as_mdeg(), 0);
    assert_eq!(straight.get_path_params().stage, Stage::new(0));
    let clockwise = &cands[2];
    assert_eq!(clockwise.angle_expected().as_mdeg(), -90_000);
    assert_eq!(clockwise.get_path_params().stage, Stage::new(1));
    let counterclockwise = &cands[3];
    assert_eq!(counterclockwise.angle_expected().as_mdeg(), 90_000);
    assert_eq!(counterclockwise.get_path_params().stage, Stage::new(1));
    // metrics: the straight child extended, the branches started over
    assert_eq!(straight.get_path_params().metrics.extend_count_since_last_branched, 1);
    assert_eq!(clockwise.get_path_params().metrics.branch_count, 1);
    assert_eq!(clockwise.get_path_params().metrics.extend_count_since_last_branched, 0);
}

#[test]
fn identical_runs_build_identical_networks() {
    let rule = straight_rule().branch_rule(BranchRules {
        branch_density: 400_000_000,
        staging_probability: 600_000_000,
    });
    let run = || {
        let provider = MockSameRuleProvider::new(rule);
        let terrain = MockSurfaceTerrain::new(0);
        let mut rng = LcgRandom::new(12345);
        let builder = TransportBuilder::new(provider);
        let builder = builder.add_origin(Site::new(0, 0), 30_000, None).unwrap();
        let builder = builder.iterate_n_times(12, &terrain, &mut rng);
        builder.build()
    };
    let n1 = run();
    let n2 = run();
    assert_eq!(n1.live_nodes(), n2.live_nodes());
    assert_eq!(n1.live_edges(), n2.live_edges());
}

#[test]
fn seeding_with_the_opposite_angle_enqueues_the_same_pair() {
    let provider = MockSameRuleProvider::new(straight_rule());
    let b1 = TransportBuilder::new(MockSameRuleProvider::new(straight_rule()))
        .add_origin(Site::new(0, 0), 0, None)
        .unwrap();
    let b2 = TransportBuilder::new(provider)
        .add_origin(Site::new(0, 0), 180_000, None)
        .unwrap();
    let c1 = b1.candidates();
    let c2 = b2.candidates();
    assert_eq!(c1.len(), 2);
    assert_eq!(c2.len(), 2);
    assert_eq!(c1[0], c2[1]);
    assert_eq!(c1[1], c2[0]);
    let n1 = b1.build();
    let n2 = b2.build();
    assert_eq!(n1.live_nodes(), n2.live_nodes());
    assert_eq!(n1.live_edges(), n2.live_edges());
}

#[test]
fn snap_keeps_the_captured_slope_within_bounds() {
    // a snapped connection respects the limit captured at its step:
    // with a tight limit and raised terrain at the candidate, the snap
    // is refused and the step grows fresh instead
    let rule = straight_rule()
        .path_slope_elevation_diff_limit(GrowthRuleElevationDiff::Linear(100));
    let stump = stump_with(rule);
    let start = TransportNode::new(Site::new(3000, 0), Stage::new(0), false);
    let end = TransportNode::new(Site::new(4000, 0), Stage::new(0), false);
    let near = vec![RelatedNode {
        node: TransportNode::new(Site::new(3300, 50), Stage::new(0), false),
        node_id: NodeId(9),
    }];
    // elevation 100 everywhere: differences are zero, the snap passes
    let flat = MockSurfaceTerrain::new(100);
    let g1 = stump.determine_growth(&start, &end, &near, &vec![], &flat);
    assert_eq!(g1.next_node, NextNodeType::Existing(NodeId(9)));
    // the candidate sits on a spike 90 units higher over a distance of
    // about 304: allowed is about 30, so the snap is refused
    let spike = MockVoronoiTerrain::new(vec![
        (Site::new(3300, 50), 90),
        (Site::new(3000, 0), 0),
        (Site::new(4000, 0), 0),
    ]);
    let g2 = stump.determine_growth(&start, &end, &near, &vec![], &spike);
    assert_eq!(g2.next_node, NextNodeType::New(end));
}

#[test]
fn pending_work_is_consumed_without_candidates() {
    let provider = MockSameRuleProvider::new(
        straight_rule().path_slope_elevation_diff_limit(
            GrowthRuleElevationDiff::AlwaysDeny),
    );
    let terrain = MockSurfaceTerrain::new(0);
    let mut rng = LcgRandom::new(1);
    let builder = TransportBuilder::new(provider);
    let builder = builder.add_origin(Site::new(0, 0), 0, None).unwrap();
    assert_eq!(builder.pending_candidates(), 2);
    // every step aborts on the denying slope rule, so the heap drains
    let builder = builder.iterate_as_possible(&terrain, &mut rng);
    assert_eq!(builder.pending_candidates(), 0);
    let net = builder.build();
    assert_eq!(net.live_nodes().len(), 0);
    assert_eq!(net.live_edges().len(), 0);
}

#[test]
fn growth_snaps_to_a_pre_existing_seed() {
    // a second seed sits 50 off the first path's line: once growth
    // comes within the search width, the path merges into it instead
    // of planting a fresh node on the line
    let provider = MockSameRuleProvider::new(straight_rule());
    let terrain = MockSurfaceTerrain::new(0);
    let mut rng = LcgRandom::new(7);
    let builder = TransportBuilder::new(provider);
    let builder = builder.add_origin(Site::new(0, 0), 0, None).unwrap();
    let builder = builder.iterate_n_times(3, &terrain, &mut rng);
    let builder = builder.add_origin(Site::new(3300, 50), 0, None).unwrap();
    let builder = builder.iterate_n_times(5, &terrain, &mut rng);
    let net = builder.build();
    let sites = sites_of(&net);
    assert!(!sites.contains(&(3000, 0)));
    assert!(!sites.contains(&(4000, 0)));
    assert!(sites.contains(&(3300, 50)));
    // the path from (2000, 0) merged into the second seed
    assert!(net.live_edges().contains(&(NodeId(3), NodeId(4))));
    assert!(net.is_quasi_planar());
}

#[test]
fn snap_ties_go_to_the_first_encountered() {
    // two survivors equally near the start: the one listed first wins,
    // whatever the ids say
    let stump = stump_with(straight_rule());
    let start = TransportNode::new(Site::new(0, 0), Stage::new(0), false);
    let end = TransportNode::new(Site::new(1000, 0), Stage::new(0), false);
    let above = RelatedNode {
        node: TransportNode::new(Site::new(500, 100), Stage::new(0), false),
        node_id: NodeId(9),
    };
    let below = RelatedNode {
        node: TransportNode::new(Site::new(500, -100), Stage::new(0), false),
        node_id: NodeId(5),
    };
    let terrain = MockSurfaceTerrain::new(0);
    let g1 = stump.determine_growth(
        &start, &end, &vec![above, below], &vec![], &terrain);
    assert_eq!(g1.next_node, NextNodeType::Existing(NodeId(9)));
    let g2 = stump.determine_growth(
        &start, &end, &vec![below, above], &vec![], &terrain);
    assert_eq!(g2.next_node, NextNodeType::Existing(NodeId(5)));
}
