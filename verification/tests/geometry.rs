//! Geometry, angle and rule value tests.

use transport_growth::angle::Angle;
use transport_growth::property::CurveProperty;
use transport_growth::property::TransportProperty;
use transport_growth::providers::LcgRandom;
use transport_growth::providers::MockSurfaceTerrain;
use transport_growth::providers::MockVoronoiTerrain;
use transport_growth::providers::RandomProvider;
use transport_growth::providers::TerrainProvider;
use transport_growth::geom::isqrt;
use transport_growth::geom::LineSegment;
use transport_growth::geom::Site;
use transport_growth::rules::check_slope;
use transport_growth::rules::BranchRules;
use transport_growth::rules::BridgeRules;
use transport_growth::rules::GrowthRuleElevationDiff;
use transport_growth::rules::PathDirectionRules;
use transport_growth::rules::PathMetrics;
use transport_growth::rules::TransportRule;

#[test]
fn test_distance() {
    let site1 = Site::new(0, 0);
    let site2 = Site::new(3, 4);
    assert_eq!(site1.distance(&site2), 5);
}

#[test]
fn distance_2_is_exact() {
    let a = Site::new(-2, 1);
    let b = Site::new(4, -7);
    assert_eq!(a.distance_2(&b), 36 + 64);
}

#[test]
fn isqrt_rounds_down() {
    assert_eq!(isqrt(0), 0);
    assert_eq!(isqrt(1), 1);
    assert_eq!(isqrt(8), 2);
    assert_eq!(isqrt(9), 3);
    assert_eq!(isqrt(10), 3);
    assert_eq!(isqrt(80_000_000_000_000_000), 282_842_712);
}

#[test]
fn extend_is_exact_on_cardinal_directions() {
    let s = Site::new(0, 0);
    assert_eq!(s.extend(Angle::new(0), 1000), Some(Site::new(1000, 0)));
    assert_eq!(s.extend(Angle::new(90_000), 1000), Some(Site::new(0, 1000)));
    assert_eq!(s.extend(Angle::new(180_000), 1000), Some(Site::new(-1000, 0)));
    assert_eq!(s.extend(Angle::new(-90_000), 1000), Some(Site::new(0, -1000)));
}

#[test]
fn extend_rejects_sites_outside_the_world() {
    let s = Site::new(100_000_000, 0);
    assert_eq!(s.extend(Angle::new(0), 1000), None);
    assert_eq!(s.extend(Angle::new(180_000), 1000), Some(Site::new(99_999_000, 0)));
}

#[test]
fn angle_normalizes_into_half_open_turn() {
    assert_eq!(Angle::new(450_000).as_mdeg(), 90_000);
    assert_eq!(Angle::new(-180_000).as_mdeg(), 180_000);
    assert_eq!(Angle::new(180_000).as_mdeg(), 180_000);
    assert_eq!(Angle::new(-450_000).as_mdeg(), -90_000);
}

#[test]
fn angle_opposite_is_an_involution() {
    for a in [-179_999i64, -90_000, -1, 0, 1, 45_000, 180_000] {
        let angle = Angle::new(a);
        assert_eq!(angle.opposite().opposite(), angle);
    }
    assert_eq!(Angle::new(0).opposite().as_mdeg(), 180_000);
}

#[test]
fn angle_perpendiculars_turn_a_quarter() {
    assert_eq!(Angle::new(0).right_clockwise().as_mdeg(), -90_000);
    assert_eq!(Angle::new(0).right_counterclockwise().as_mdeg(), 90_000);
    assert_eq!(Angle::new(135_000).right_counterclockwise().as_mdeg(), -135_000);
}

#[test]
fn angle_fan_is_odd_and_symmetric() {
    let fan = Angle::new(0).iter_range_around(90_000, 3);
    let got: Vec<i64> = fan.iter().map(|a| a.as_mdeg()).collect();
    assert_eq!(got, vec![-90_000, 0, 90_000]);
    // an even comparison count is defensively rounded up to odd
    let fan2 = Angle::new(0).iter_range_around(60_000, 2);
    assert_eq!(fan2.len(), 3);
    let single = Angle::new(30_000).iter_range_around(0, 1);
    assert_eq!(single.len(), 1);
    assert_eq!(single[0].as_mdeg(), 30_000);
}

#[test]
fn trig_is_exact_on_quadrants() {
    assert_eq!(Angle::new(0).cos(), 1_000_000);
    assert_eq!(Angle::new(0).sin(), 0);
    assert_eq!(Angle::new(90_000).sin(), 1_000_000);
    assert_eq!(Angle::new(90_000).cos(), 0);
    assert_eq!(Angle::new(180_000).cos(), -1_000_000);
    assert_eq!(Angle::new(-90_000).sin(), -1_000_000);
}

#[test]
fn segment_distance_comparison_is_exact() {
    let seg = LineSegment::new(Site::new(3000, 0), Site::new(4000, 0));
    // perpendicular distance of 50
    assert!(seg.get_distance_lt(&Site::new(3300, 50), 51));
    assert!(!seg.get_distance_lt(&Site::new(3300, 50), 50));
    // beyond an endpoint, the distance is to the endpoint
    assert!(seg.get_distance_lt(&Site::new(4300, 400), 501));
    assert!(!seg.get_distance_lt(&Site::new(4300, 400), 500));
}

#[test]
fn proper_crossing_is_strict() {
    let h = LineSegment::new(Site::new(0, 0), Site::new(2000, 0));
    let v = LineSegment::new(Site::new(1000, -1000), Site::new(1000, 1000));
    assert_eq!(v.get_intersection(&h), Some(Site::new(1000, 0)));
    assert_eq!(h.get_intersection(&v), Some(Site::new(1000, 0)));
    // touching at an endpoint is no proper crossing
    let touch = LineSegment::new(Site::new(1000, 0), Site::new(1000, 1000));
    assert_eq!(touch.get_intersection(&h), None);
    // collinear overlap is no proper crossing
    let col = LineSegment::new(Site::new(500, 0), Site::new(2500, 0));
    assert_eq!(col.get_intersection(&h), None);
}

#[test]
fn check_slope_compares_squares_exactly() {
    // elevation difference 100 over length 1000 with a limit of
    // 100 SLOPE_SCALE-ths per unit: allowed exactly
    let d2 = 1000i64 * 1000;
    assert!(check_slope(0, 100, d2, &GrowthRuleElevationDiff::Linear(100)));
    assert!(!check_slope(0, 100, d2, &GrowthRuleElevationDiff::Linear(99)));
    assert!(check_slope(0, 100, d2, &GrowthRuleElevationDiff::AlwaysAllow));
    assert!(!check_slope(0, 0, d2, &GrowthRuleElevationDiff::AlwaysDeny));
}

#[test]
fn elevation_diff_value_follows_the_rule() {
    assert_eq!(GrowthRuleElevationDiff::AlwaysAllow.value(2000), None);
    assert_eq!(GrowthRuleElevationDiff::AlwaysDeny.value(2000), Some(-1));
    assert_eq!(GrowthRuleElevationDiff::Linear(1500).value(2000), Some(3000));
}

#[test]
fn rule_builders_replace_single_fields() {
    let rule = TransportRule::default()
        .path_normal_length(1000)
        .path_extra_length_for_intersection(700)
        .path_priority(5)
        .path_slope_elevation_diff_limit(GrowthRuleElevationDiff::Linear(10))
        .path_grade_separation_elevation_diff_required(GrowthRuleElevationDiff::AlwaysDeny)
        .branch_rule(BranchRules { branch_density: 1, staging_probability: 2 })
        .path_direction_rule(PathDirectionRules { max_angle: 90_000, comparison_step: 3 })
        .bridge_rule(BridgeRules { max_bridge_length: 9, check_step: 2 });
    assert_eq!(rule.path_normal_length, 1000);
    assert_eq!(rule.path_extra_length_for_intersection, 700);
    assert_eq!(rule.path_priority, 5);
    assert_eq!(rule.path_slope_elevation_diff_limit, GrowthRuleElevationDiff::Linear(10));
    assert_eq!(rule.branch_rule.branch_density, 1);
    assert_eq!(rule.path_direction_rule.comparison_step, 3);
    assert_eq!(rule.bridge_rule.max_bridge_length, 9);
    let d = TransportRule::default();
    assert_eq!(d.path_normal_length, 0);
    assert_eq!(d.path_slope_elevation_diff_limit, GrowthRuleElevationDiff::AlwaysAllow);
    assert_eq!(
        d.path_grade_separation_elevation_diff_required,
        GrowthRuleElevationDiff::AlwaysDeny
    );
}

#[test]
fn metrics_track_branches_and_extensions() {
    let m = PathMetrics::new();
    let m2 = m.extended().extended();
    assert_eq!(m2.extend_count_since_last_branched, 2);
    assert_eq!(m2.branch_count, 0);
    let m3 = m2.branched();
    assert_eq!(m3.extend_count_since_last_branched, 0);
    assert_eq!(m3.branch_count, 1);
}

#[test]
fn property_values_hold_their_fields() {
    let curve = CurveProperty::default();
    assert_eq!(curve.max_angle, 0);
    assert_eq!(curve.comparison_step, 1);
    let p = TransportProperty {
        path_priority: 3,
        elevation: -20,
        population_density: 500_000_000,
        path_length: 1000,
        branch_probability: 250_000_000,
    };
    assert_eq!(p.path_priority, 3);
    assert_eq!(p.elevation, -20);
}

#[test]
fn lcg_random_is_deterministic_and_bounded() {
    let mut a = LcgRandom::new(99);
    let mut b = LcgRandom::new(99);
    for _ in 0..50 {
        let x = a.gen_unit();
        assert_eq!(x, b.gen_unit());
        assert!(x < 1_000_000_000);
    }
    let mut c = LcgRandom::new(100);
    let distinct = (0..10).any(|_| a.gen_unit() != c.gen_unit());
    assert!(distinct);
}

#[test]
fn voronoi_terrain_answers_the_nearest_spot_first_on_ties() {
    let t = MockVoronoiTerrain::new(vec![
        (Site::new(0, 0), 5),
        (Site::new(100, 0), 7),
    ]);
    assert_eq!(t.get_elevation(&Site::new(10, 0)), Some(5));
    assert_eq!(t.get_elevation(&Site::new(90, 0)), Some(7));
    // a tie goes to the spot listed first
    assert_eq!(t.get_elevation(&Site::new(50, 0)), Some(5));
    let empty = MockVoronoiTerrain::new(vec![]);
    assert_eq!(empty.get_elevation(&Site::new(0, 0)), None);
    let flat = MockSurfaceTerrain::new(42);
    assert_eq!(flat.get_elevation(&Site::new(123, 456)), Some(42));
}
