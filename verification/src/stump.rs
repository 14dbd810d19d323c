//! Pending path extensions and the growth classifier.
//!
//! A stump holds the immutable context of one pending extension: its
//! origin node id, the expected angle, and the captured rules, metrics
//! and evaluation score.  The classifier decides, for a proposed edge,
//! among snapping to a nearby node, splitting a crossed edge, growing a
//! fresh node, or aborting; each outcome is characterized exactly in
//! its contract.  Ties among equally near snap candidates go to the
//! first encountered; ties among equally near crossings, for which no
//! rule is prescribed, go to the smaller id pair.

use vstd::prelude::*;
use crate::angle::Angle;
use crate::geom::LineSegment;
use crate::geom::MAX_COORD;
use crate::geom::Site;
use crate::geom::isqrt;
use crate::geom::spec_div_trunc;
use crate::network::NodeId;
use crate::network::TransportNode;
use crate::providers::TerrainProvider;
use crate::rules::GrowthRuleElevationDiff;
use crate::rules::PathMetrics;
use crate::rules::TransportRule;
use crate::rules::spec_check_slope;
use crate::stage::Stage;

verus! {

/// A node near a proposed extension, as handed to the classifier.
#[derive(Debug, Clone, Copy, PartialEq, Eq, Structural)]
pub struct RelatedNode {
    /// The nearby node.
    pub node: TransportNode,
    /// Its id in the network.
    pub node_id: NodeId,
}

/// Parameters of a path to be extended.
#[derive(Debug, Clone, Copy, PartialEq, Eq, Structural)]
pub struct PathParams {
    /// Stage of the pending extension.
    pub stage: Stage,
    /// Rule snapshot captured at the extension's start.
    pub rules_start: TransportRule,
    /// Lineage counters captured at the extension's start.
    pub metrics: PathMetrics,
    /// Evaluation score of the expected end site: the candidate heap
    /// ranks by it.
    pub evaluation: i64,
}

/// The outcome of one growth step.
#[derive(Debug, Clone, Copy, PartialEq, Eq)]
pub enum NextNodeType {
    /// Extend to a fresh node.
    New(TransportNode),
    /// Snap to this existing node.
    Existing(NodeId),
    /// Split the edge between the id pair at the carried node.
    Intersect(TransportNode, (NodeId, NodeId)),
    /// Do not grow.
    Abort,
}

/// The classified growth, ready to be applied to the network.
#[derive(Debug, Clone, Copy, PartialEq, Eq)]
pub struct GrowthTypes {
    /// What the step does.
    pub next_node: NextNodeType,
}

/// The integer square root, as a value: the unique non-negative `r`
/// with `r * r <= n < (r + 1) * (r + 1)`.
pub open spec fn spec_isqrt(n: int) -> int {
    choose|r: int| r >= 0 && #[trigger] (r * r) <= n && n < (r + 1) * (r + 1)
}

/// Two non-negative integers whose squares bracket `n` the same way
/// are equal.
pub proof fn lemma_isqrt_unique(n: int, r1: int, r2: int)
    requires
        r1 >= 0,
        r1 * r1 <= n,
        n < (r1 + 1) * (r1 + 1),
        r2 >= 0,
        r2 * r2 <= n,
        n < (r2 + 1) * (r2 + 1),
    ensures
        r1 == r2,
{
    assert(r1 == r2) by (nonlinear_arith)
        requires
            r1 >= 0,
            r1 * r1 <= n,
            n < (r1 + 1) * (r1 + 1),
            r2 >= 0,
            r2 * r2 <= n,
            n < (r2 + 1) * (r2 + 1),
    {}
}

/// A coordinate clamped into the world.
pub open spec fn spec_clamp_coord(v: int) -> int {
    if v < -MAX_COORD {
        -(MAX_COORD as int)
    } else if v > MAX_COORD {
        MAX_COORD as int
    } else {
        v
    }
}

/// The search segment's far end: the expected end pushed outward by
/// `extra` length along the same ray, clamped into the world.  Where
/// start and end coincide, the end itself.
pub open spec fn spec_extended_end(start: Site, end: Site, extra: int) -> Site {
    let d = spec_isqrt(Site::spec_dist2(start, end));
    if d == 0 {
        end
    } else {
        let num = d + extra;
        let dx = spec_div_trunc((end.x - start.x) * num, d);
        let dy = spec_div_trunc((end.y - start.y) * num, d);
        Site {
            x: spec_clamp_coord(start.x + dx) as i64,
            y: spec_clamp_coord(start.y + dy) as i64,
        }
    }
}

/// An existing node qualifies for snapping: it lies strictly within
/// `extra` of the proposed segment, the connecting segment crosses no
/// related path not incident to it, and the slope from the start to it
/// is feasible under defined terrain.
pub open spec fn spec_snap_ok<TP: TerrainProvider>(
    tp: TP,
    start: Site,
    end: Site,
    extra: int,
    limit: GrowthRuleElevationDiff,
    rn: RelatedNode,
    paths: Seq<(RelatedNode, RelatedNode)>,
) -> bool {
    &&& LineSegment::spec_dist_lt(
        LineSegment { from: start, to: end }, rn.node.site, extra)
    &&& forall|t: int| 0 <= t < paths.len() ==> ((#[trigger] paths[t]).0.node_id
        == rn.node_id || paths[t].1.node_id == rn.node_id
        || !LineSegment::spec_proper_cross(
        LineSegment { from: paths[t].0.node.site, to: paths[t].1.node.site },
        LineSegment { from: start, to: rn.node.site }))
    &&& tp.elevation_spec(start) is Some
    &&& tp.elevation_spec(rn.node.site) is Some
    &&& spec_check_slope(tp.elevation_spec(start).unwrap() as int, tp.elevation_spec(
        rn.node.site).unwrap() as int, Site::spec_dist2(start, rn.node.site), limit)
}

/// The snap candidate at position `k2` is strictly preferred to the
/// one at position `k`: nearer to the start, or equally near and
/// encountered earlier.
pub open spec fn spec_snap_better_at(
    start: Site,
    nodes: Seq<RelatedNode>,
    k2: int,
    k: int,
) -> bool {
    let d2 = Site::spec_dist2(start, nodes[k2].node.site);
    let d = Site::spec_dist2(start, nodes[k].node.site);
    d2 < d || (d2 == d && k2 < k)
}

/// The crossing point of a related path with the search segment, where
/// the two properly cross.
pub open spec fn spec_cross_point(
    start: Site,
    end: Site,
    extra: int,
    path: (RelatedNode, RelatedNode),
) -> Option<Site> {
    LineSegment::spec_intersection(
        LineSegment { from: path.0.node.site, to: path.1.node.site },
        LineSegment { from: start, to: spec_extended_end(start, end, extra) },
    )
}

/// A related path qualifies for splitting: it properly crosses the
/// search segment and the slope from the start to the crossing point is
/// feasible under defined terrain.
pub open spec fn spec_cross_ok<TP: TerrainProvider>(
    tp: TP,
    start: Site,
    end: Site,
    extra: int,
    limit: GrowthRuleElevationDiff,
    path: (RelatedNode, RelatedNode),
) -> bool {
    match spec_cross_point(start, end, extra, path) {
        None => false,
        Some(p) => {
            &&& tp.elevation_spec(start) is Some
            &&& tp.elevation_spec(p) is Some
            &&& spec_check_slope(tp.elevation_spec(start).unwrap() as int,
                tp.elevation_spec(p).unwrap() as int, Site::spec_dist2(start, p), limit)
        },
    }
}

/// Crossing path `a` is strictly preferred to `b`: its crossing point
/// is nearer to the start, or equally near with the smaller id pair.
pub open spec fn spec_cross_better(
    start: Site,
    end: Site,
    extra: int,
    a: (RelatedNode, RelatedNode),
    b: (RelatedNode, RelatedNode),
) -> bool {
    let da = Site::spec_dist2(start, spec_cross_point(start, end, extra, a).unwrap());
    let db = Site::spec_dist2(start, spec_cross_point(start, end, extra, b).unwrap());
    ||| da < db
    ||| (da == db && a.0.node_id.0 < b.0.node_id.0)
    ||| (da == db && a.0.node_id.0 == b.0.node_id.0 && a.1.node_id.0 < b.1.node_id.0)
}

/// The node a winning crossing creates: it stands at the crossing
/// point, at the finer of the crossed edge's stages, and is a bridge
/// end where either crossed end is one.
pub open spec fn spec_cross_node(
    start: Site,
    end: Site,
    extra: int,
    path: (RelatedNode, RelatedNode),
) -> TransportNode {
    TransportNode {
        site: spec_cross_point(start, end, extra, path).unwrap(),
        stage: if path.0.node.stage.as_int() >= path.1.node.stage.as_int() {
            path.0.node.stage
        } else {
            path.1.node.stage
        },
        is_bridge: path.0.node.is_bridge || path.1.node.is_bridge,
    }
}

/// The growth `r` is the classifier's answer for the given context:
/// the nearest qualifying snap wins; else the nearest qualifying
/// crossing wins, aborting on a bridge; else a fresh extension iff the
/// direct slope is feasible.
pub open spec fn spec_growth_matches<TP: TerrainProvider>(
    tp: TP,
    start: Site,
    end: Site,
    end_node: TransportNode,
    extra: int,
    limit: GrowthRuleElevationDiff,
    nodes: Seq<RelatedNode>,
    paths: Seq<(RelatedNode, RelatedNode)>,
    r: GrowthTypes,
) -> bool {
    let no_snap = forall|k: int| 0 <= k < nodes.len() ==> !spec_snap_ok(
        tp, start, end, extra, limit, #[trigger] nodes[k], paths);
    let no_cross = forall|t: int| 0 <= t < paths.len() ==> !spec_cross_ok(
        tp, start, end, extra, limit, #[trigger] paths[t]);
    match r.next_node {
        NextNodeType::Existing(id) => exists|k: int| 0 <= k < nodes.len()
            && (#[trigger] nodes[k]).node_id == id && spec_snap_ok(
            tp, start, end, extra, limit, nodes[k], paths) && (forall|k2: int| 0 <= k2
            < nodes.len() && spec_snap_ok(tp, start, end, extra, limit, #[trigger]
            nodes[k2], paths) ==> !spec_snap_better_at(start, nodes, k2, k)),
        NextNodeType::Intersect(node, ids) => no_snap && exists|t: int| 0 <= t
            < paths.len() && (#[trigger] paths[t]).0.node_id == ids.0 && paths[
            t].1.node_id == ids.1 && spec_cross_ok(tp, start, end, extra, limit, paths[
            t]) && !(paths[t].0.node.is_bridge && paths[t].1.node.is_bridge) && node
            == spec_cross_node(start, end, extra, paths[t]) && (forall|t2: int| 0 <= t2
            < paths.len() && spec_cross_ok(tp, start, end, extra, limit, #[trigger]
            paths[t2], ) ==> !spec_cross_better(start, end, extra, paths[t2], paths[t])),
        NextNodeType::New(node) => no_snap && no_cross && node == end_node
            && tp.elevation_spec(start) is Some && tp.elevation_spec(end) is Some
            && spec_check_slope(tp.elevation_spec(start).unwrap() as int,
            tp.elevation_spec(end).unwrap() as int, Site::spec_dist2(start, end), limit),
        NextNodeType::Abort => no_snap && ((exists|t: int| 0 <= t < paths.len()
            && spec_cross_ok(tp, start, end, extra, limit, #[trigger] paths[t])
            && (paths[t].0.node.is_bridge && paths[t].1.node.is_bridge) && (forall|
            t2: int| 0 <= t2 < paths.len() && spec_cross_ok(tp, start, end, extra,
            limit, #[trigger] paths[t2]) ==> !spec_cross_better(start, end, extra,
            paths[t2], paths[t]))) || (no_cross && !(tp.elevation_spec(start) is Some
            && tp.elevation_spec(end) is Some && spec_check_slope(tp.elevation_spec(
            start).unwrap() as int, tp.elevation_spec(end).unwrap() as int,
            Site::spec_dist2(start, end), limit)))),
    }
}

/// A pending path extension: origin node id, expected angle and the
/// captured parameters, ranked in the heap by the evaluation score.
#[derive(Debug, Clone, Copy, PartialEq, Eq, Structural)]
pub struct NodeStump {
    /// The origin node id.
    pub node_id: NodeId,
    /// The expected angle of the extension.
    pub angle_expected: Angle,
    /// The captured parameters.
    pub params: PathParams,
}

impl NodeStump {
    /// The origin node id.
    pub open spec fn spec_node_id(self) -> NodeId {
        self.node_id
    }

    /// The expected angle.
    pub open spec fn spec_angle(self) -> Angle {
        self.angle_expected
    }

    /// The captured parameters.
    pub open spec fn spec_params(self) -> PathParams {
        self.params
    }

    /// The captured values lie in their admitted ranges.
    pub open spec fn wf(self) -> bool {
        self.angle_expected.wf() && self.params.rules_start.wf()
    }

    /// A new pending extension.
    pub fn new(node_id: NodeId, angle_expected: Angle, params: PathParams) -> (r: Self)
        ensures
            r == (NodeStump { node_id, angle_expected, params }),
    {
        Self { node_id, angle_expected, params }
    }

    /// The origin node id.
    pub fn get_node_id(&self) -> (r: NodeId)
        ensures
            r == self.spec_node_id(),
    {
        self.node_id
    }

    /// The expected angle of the extension.
    pub fn angle_expected(&self) -> (r: Angle)
        ensures
            r == self.spec_angle(),
    {
        self.angle_expected
    }

    /// The captured parameters.
    pub fn get_path_params(&self) -> (r: &PathParams)
        ensures
            r == self.spec_params(),
    {
        &self.params
    }

    /// The far end of the crossing search: the expected end pushed
    /// outward by the captured extra search length, clamped into the
    /// world.
    pub fn get_expected_site_to_with_extra_length(
        &self,
        start_site: Site,
        site_expected_end: Site,
    ) -> (r: Site)
        requires
            start_site.wf(),
            site_expected_end.wf(),
            self.wf(),
        ensures
            r == spec_extended_end(start_site, site_expected_end,
                self.spec_params().rules_start.path_extra_length_for_intersection as int),
            r.wf(),
    {
        let extra: i64 = self.params.rules_start.path_extra_length_for_intersection;
        let d2: i64 = start_site.distance_2(&site_expected_end);
        let d: u64 = isqrt(d2 as u64);
        proof {
            lemma_isqrt_unique(d2 as int, d as int, spec_isqrt(d2 as int));
        }
        if d == 0 {
            return site_expected_end;
        }
        proof {
            assert(d as int <= 300_000_000) by (nonlinear_arith)
                requires
                    0 <= d as int,
                    d as int * d as int <= 80_000_000_000_000_000,
            {}
        }
        let num: u64 = d + (extra as u64);
        let x: i64 = extend_coord(start_site.x, site_expected_end.x - start_site.x, num, d);
        let y: i64 = extend_coord(start_site.y, site_expected_end.y - start_site.y, num, d);
        Site { x, y }
    }
}

impl NodeStump {
    /// Classifies the growth for the proposed edge from `node_start`
    /// to `node_expected_end`, given the nodes and paths near it: the
    /// nearest qualifying existing node wins; else the nearest
    /// qualifying crossing is split, unless the crossed edge is a
    /// bridge, which aborts; else the edge grows fresh iff the direct
    /// slope is feasible.  Ties among equally near snap candidates go
    /// to the first encountered; ties among equally near crossings go
    /// to the smaller id pair.
    pub fn determine_growth<TP: TerrainProvider>(
        &self,
        node_start: &TransportNode,
        node_expected_end: &TransportNode,
        related_nodes: &Vec<RelatedNode>,
        related_paths: &Vec<(RelatedNode, RelatedNode)>,
        terrain_provider: &TP,
    ) -> (r: GrowthTypes)
        requires
            self.wf(),
            node_start.site.wf(),
            node_expected_end.site.wf(),
            forall|k: int| 0 <= k < related_nodes@.len() ==> (#[trigger] related_nodes@[
                k]).node.site.wf(),
            forall|t: int| 0 <= t < related_paths@.len() ==> (#[trigger] related_paths@[
                t]).0.node.site.wf() && related_paths@[t].1.node.site.wf(),
        ensures
            spec_growth_matches(*terrain_provider, node_start.site,
                node_expected_end.site, *node_expected_end,
                self.params.rules_start.path_extra_length_for_intersection as int,
                self.params.rules_start.path_slope_elevation_diff_limit, related_nodes@,
                related_paths@, r),
            r.next_node matches NextNodeType::Intersect(n, ids) ==> n.site.wf(),
    {
        let start: Site = node_start.site;
        let end: Site = node_expected_end.site;
        let extra: i64 = self.params.rules_start.path_extra_length_for_intersection;
        let limit: GrowthRuleElevationDiff =
            self.params.rules_start.path_slope_elevation_diff_limit;
        let ghost tp = *terrain_provider;
        let es_opt: Option<i64> = terrain_provider.get_elevation(&start);

        // Existing-node snap.
        let seg = LineSegment::new(start, end);
        let mut best: Option<RelatedNode> = None;
        let mut best_d2: i64 = 0;
        let ghost mut bk: int = 0;
        let mut k: usize = 0;
        while k < related_nodes.len()
            invariant
                self.wf(),
                start.wf(),
                end.wf(),
                start == node_start.site,
                end == node_expected_end.site,
                extra == self.params.rules_start.path_extra_length_for_intersection,
                limit == self.params.rules_start.path_slope_elevation_diff_limit,
                tp == *terrain_provider,
                es_opt == tp.elevation_spec(start),
                es_opt matches Some(e) ==> -crate::rules::MAX_ELEV <= e
                    <= crate::rules::MAX_ELEV,
                seg == (LineSegment { from: start, to: end }),
                k <= related_nodes@.len(),
                forall|k2: int| 0 <= k2 < related_nodes@.len() ==> (#[trigger]
                    related_nodes@[k2]).node.site.wf(),
                forall|t: int| 0 <= t < related_paths@.len() ==> (#[trigger]
                    related_paths@[t]).0.node.site.wf() && related_paths@[
                    t].1.node.site.wf(),
                best is None ==> forall|k2: int| 0 <= k2 < k as int ==> !spec_snap_ok(
                    tp, start, end, extra as int, limit, #[trigger] related_nodes@[k2],
                    related_paths@),
                best matches Some(b) ==> 0 <= bk < k as int && related_nodes@[bk]
                    == b && spec_snap_ok(tp, start, end, extra as int, limit, b,
                    related_paths@) && best_d2 as int == Site::spec_dist2(
                    start, b.node.site) && (forall|k2: int| 0 <= k2 < k as int
                    && spec_snap_ok(tp, start, end, extra as int, limit, #[trigger]
                    related_nodes@[k2], related_paths@) ==> !spec_snap_better_at(start,
                    related_nodes@, k2, bk)),
            decreases related_nodes@.len() - k,
        {
            let rn: RelatedNode = related_nodes[k];
            let near: bool = seg.get_distance_lt(&rn.node.site, extra);
            let mut ok: bool = near;
            if ok {
                // no related path may properly cross the connection
                let conn = LineSegment::new(start, rn.node.site);
                let mut t: usize = 0;
                let mut crossed: bool = false;
                while t < related_paths.len()
                    invariant
                        start.wf(),
                        rn.node.site.wf(),
                        conn == (LineSegment { from: start, to: rn.node.site }),
                        t <= related_paths@.len(),
                        forall|t3: int| 0 <= t3 < related_paths@.len() ==> (#[trigger]
                            related_paths@[t3]).0.node.site.wf() && related_paths@[
                            t3].1.node.site.wf(),
                        crossed == exists|t2: int| 0 <= t2 < t as int && !((#[trigger]
                            related_paths@[t2]).0.node_id == rn.node_id
                            || related_paths@[t2].1.node_id == rn.node_id)
                            && LineSegment::spec_proper_cross(LineSegment {
                            from: related_paths@[t2].0.node.site,
                            to: related_paths@[t2].1.node.site }, LineSegment {
                            from: start, to: rn.node.site }),
                    decreases related_paths@.len() - t,
                {
                    let p = related_paths[t];
                    if !(p.0.node_id.0 == rn.node_id.0 || p.1.node_id.0 == rn.node_id.0) {
                        let path_line = LineSegment::new(p.0.node.site, p.1.node.site);
                        if path_line.proper_cross(&conn) {
                            crossed = true;
                        }
                    }
                    t = t + 1;
                }
                if crossed {
                    ok = false;
                }
            }
            if ok {
                // slope feasibility from the start to the candidate
                ok = match es_opt {
                    Some(es) => {
                        let ee_opt = terrain_provider.get_elevation(&rn.node.site);
                        match ee_opt {
                            Some(ee) => {
                                let d2 = start.distance_2(&rn.node.site);
                                crate::rules::check_slope(es, ee, d2, &limit)
                            },
                            None => false,
                        }
                    },
                    None => false,
                };
            }
            proof {
                assert(ok == spec_snap_ok(tp, start, end, extra as int, limit, rn,
                    related_paths@));
            }
            if ok {
                let d2 = start.distance_2(&rn.node.site);
                let take: bool = match &best {
                    None => true,
                    Some(_) => d2 < best_d2,
                };
                if take {
                    best = Some(rn);
                    best_d2 = d2;
                    proof {
                        bk = k as int;
                    }
                }
            }
            k = k + 1;
        }
        if let Some(b) = best {
            proof {
                assert(0 <= bk < related_nodes@.len() && related_nodes@[bk] == b);
                assert(spec_growth_matches(tp, start, end, *node_expected_end,
                    extra as int, limit, related_nodes@, related_paths@, GrowthTypes {
                    next_node: NextNodeType::Existing(b.node_id) }));
            }
            return GrowthTypes { next_node: NextNodeType::Existing(b.node_id) };
        }

        // Edge-crossing split.
        let search_end: Site = self.get_expected_site_to_with_extra_length(start, end);
        let search_line = LineSegment::new(start, search_end);
        let mut bestc: Option<((RelatedNode, RelatedNode), Site)> = None;
        let mut bestc_d2: i64 = 0;
        let mut t: usize = 0;
        while t < related_paths.len()
            invariant
                self.wf(),
                start.wf(),
                end.wf(),
                start == node_start.site,
                end == node_expected_end.site,
                extra == self.params.rules_start.path_extra_length_for_intersection,
                limit == self.params.rules_start.path_slope_elevation_diff_limit,
                tp == *terrain_provider,
                es_opt == tp.elevation_spec(start),
                es_opt matches Some(e) ==> -crate::rules::MAX_ELEV <= e
                    <= crate::rules::MAX_ELEV,
                search_end == spec_extended_end(start, end, extra as int),
                search_end.wf(),
                search_line == (LineSegment { from: start, to: search_end }),
                t <= related_paths@.len(),
                forall|t3: int| 0 <= t3 < related_paths@.len() ==> (#[trigger]
                    related_paths@[t3]).0.node.site.wf() && related_paths@[
                    t3].1.node.site.wf(),
                bestc is None ==> forall|t2: int| 0 <= t2 < t as int ==> !spec_cross_ok(
                    tp, start, end, extra as int, limit, #[trigger] related_paths@[t2]),
                bestc matches Some(bc) ==> (exists|t2: int| 0 <= t2 < t as int
                    && #[trigger] related_paths@[t2] == bc.0) && spec_cross_ok(tp,
                    start, end, extra as int, limit, bc.0) && Some(bc.1)
                    == spec_cross_point(start, end, extra as int, bc.0) && bc.1.wf()
                    && bestc_d2 as int == Site::spec_dist2(start, bc.1) && (forall|
                    t2: int| 0 <= t2 < t as int && spec_cross_ok(tp, start, end,
                    extra as int, limit, #[trigger] related_paths@[t2])
                    ==> !spec_cross_better(start, end, extra as int, related_paths@[t2],
                    bc.0)),
            decreases related_paths@.len() - t,
        {
            let p = related_paths[t];
            let path_line = LineSegment::new(p.0.node.site, p.1.node.site);
            let ip_opt: Option<Site> = path_line.get_intersection(&search_line);
            let mut ok_point: Option<Site> = None;
            if let Some(ip) = ip_opt {
                match es_opt {
                    Some(es) => {
                        let ei_opt = terrain_provider.get_elevation(&ip);
                        match ei_opt {
                            Some(ei) => {
                                let d2 = start.distance_2(&ip);
                                if crate::rules::check_slope(es, ei, d2, &limit) {
                                    ok_point = Some(ip);
                                }
                            },
                            None => {},
                        }
                    },
                    None => {},
                }
            }
            proof {
                assert(ok_point is Some == spec_cross_ok(tp, start, end, extra as int,
                    limit, related_paths@[t as int]));
                assert(ok_point matches Some(ip) ==> Some(ip) == spec_cross_point(
                    start, end, extra as int, related_paths@[t as int]));
            }
            if let Some(ip) = ok_point {
                let d2 = start.distance_2(&ip);
                let take: bool = match &bestc {
                    None => true,
                    Some(bc) => d2 < bestc_d2 || (d2 == bestc_d2 && (p.0.node_id.0
                        < bc.0.0.node_id.0 || (p.0.node_id.0 == bc.0.0.node_id.0
                        && p.1.node_id.0 < bc.0.1.node_id.0))),
                };
                if take {
                    bestc = Some((p, ip));
                    bestc_d2 = d2;
                }
            }
            t = t + 1;
        }
        if let Some(bc) = bestc {
            let pa = bc.0.0;
            let pb = bc.0.1;
            if pa.node.path_creates_bridge(&pb.node) {
                return GrowthTypes { next_node: NextNodeType::Abort };
            }
            let node = TransportNode::new(
                bc.1,
                pa.node.path_stage(&pb.node),
                pa.node.is_bridge || pb.node.is_bridge,
            );
            proof {
                assert(node == spec_cross_node(start, end, extra as int, bc.0));
            }
            return GrowthTypes {
                next_node: NextNodeType::Intersect(node, (pa.node_id, pb.node_id)),
            };
        }

        // Fresh extension, slope permitting.
        let grow: bool = match es_opt {
            Some(es) => {
                let ee_opt = terrain_provider.get_elevation(&end);
                match ee_opt {
                    Some(ee) => {
                        let d2 = start.distance_2(&end);
                        crate::rules::check_slope(es, ee, d2, &limit)
                    },
                    None => false,
                }
            },
            None => false,
        };
        if grow {
            GrowthTypes { next_node: NextNodeType::New(*node_expected_end) }
        } else {
            GrowthTypes { next_node: NextNodeType::Abort }
        }
    }
}

/// The classifier's characterization admits a single outcome: two
/// growths matching the same context are equal, provided ids determine
/// the related entries, which holds of entries drawn from one network.
/// So the step is deterministic whatever order the spatial queries
/// yielded the related entries in.
pub proof fn lemma_growth_unique<TP: TerrainProvider>(
    tp: TP,
    start: Site,
    end: Site,
    end_node: TransportNode,
    extra: int,
    limit: GrowthRuleElevationDiff,
    nodes: Seq<RelatedNode>,
    paths: Seq<(RelatedNode, RelatedNode)>,
    r1: GrowthTypes,
    r2: GrowthTypes,
)
    requires
        spec_growth_matches(tp, start, end, end_node, extra, limit, nodes, paths, r1),
        spec_growth_matches(tp, start, end, end_node, extra, limit, nodes, paths, r2),
        forall|t1: int, t2: int| 0 <= t1 < paths.len() && 0 <= t2 < paths.len()
            && (#[trigger] paths[t1]).0.node_id == (#[trigger] paths[t2]).0.node_id
            && paths[t1].1.node_id == paths[t2].1.node_id ==> paths[t1] == paths[t2],
    ensures
        r1 == r2,
{
    match r1.next_node {
        NextNodeType::Existing(id1) => {
            let k1 = choose|k: int| 0 <= k < nodes.len() && (#[trigger] nodes[
                k]).node_id == id1 && spec_snap_ok(tp, start, end, extra, limit,
                nodes[k], paths) && (forall|k2: int| 0 <= k2 < nodes.len()
                && spec_snap_ok(tp, start, end, extra, limit, #[trigger] nodes[k2],
                paths) ==> !spec_snap_better_at(start, nodes, k2, k));
            match r2.next_node {
                NextNodeType::Existing(id2) => {
                    let k2 = choose|k: int| 0 <= k < nodes.len() && (#[trigger] nodes[
                        k]).node_id == id2 && spec_snap_ok(tp, start, end, extra,
                        limit, nodes[k], paths) && (forall|k3: int| 0 <= k3
                        < nodes.len() && spec_snap_ok(tp, start, end, extra, limit,
                        #[trigger] nodes[k3], paths) ==> !spec_snap_better_at(start,
                        nodes, k3, k));
                    assert(!spec_snap_better_at(start, nodes, k1, k2));
                    assert(!spec_snap_better_at(start, nodes, k2, k1));
                    assert(k1 == k2);
                    assert(id1 == id2);
                },
                _ => {
                    assert(!spec_snap_ok(tp, start, end, extra, limit, nodes[k1],
                        paths));
                },
            }
        },
        NextNodeType::Intersect(n1, ids1) => {
            let t1 = choose|t: int| 0 <= t < paths.len() && (#[trigger] paths[
                t]).0.node_id == ids1.0 && paths[t].1.node_id == ids1.1
                && spec_cross_ok(tp, start, end, extra, limit, paths[t]) && !(paths[
                t].0.node.is_bridge && paths[t].1.node.is_bridge) && n1
                == spec_cross_node(start, end, extra, paths[t]) && (forall|t2: int| 0
                <= t2 < paths.len() && spec_cross_ok(tp, start, end, extra, limit,
                #[trigger] paths[t2]) ==> !spec_cross_better(start, end, extra,
                paths[t2], paths[t]));
            match r2.next_node {
                NextNodeType::Existing(id2) => {
                    let k2 = choose|k: int| 0 <= k < nodes.len() && (#[trigger] nodes[
                        k]).node_id == id2 && spec_snap_ok(tp, start, end, extra,
                        limit, nodes[k], paths);
                    assert(!spec_snap_ok(tp, start, end, extra, limit, nodes[k2],
                        paths));
                    assert(false);
                },
                NextNodeType::Intersect(n2, ids2) => {
                    let t2 = choose|t: int| 0 <= t < paths.len() && (#[trigger] paths[
                        t]).0.node_id == ids2.0 && paths[t].1.node_id == ids2.1
                        && spec_cross_ok(tp, start, end, extra, limit, paths[t])
                        && !(paths[t].0.node.is_bridge && paths[t].1.node.is_bridge)
                        && n2 == spec_cross_node(start, end, extra, paths[t]) && (
                        forall|t3: int| 0 <= t3 < paths.len() && spec_cross_ok(tp,
                        start, end, extra, limit, #[trigger] paths[t3])
                        ==> !spec_cross_better(start, end, extra, paths[t3], paths[t]));
                    assert(!spec_cross_better(start, end, extra, paths[t1], paths[t2]));
                    assert(!spec_cross_better(start, end, extra, paths[t2], paths[t1]));
                    assert(paths[t1].0.node_id == paths[t2].0.node_id && paths[
                        t1].1.node_id == paths[t2].1.node_id);
                    assert(paths[t1] == paths[t2]);
                },
                NextNodeType::New(n2) => {
                    assert(!spec_cross_ok(tp, start, end, extra, limit, paths[t1]));
                },
                NextNodeType::Abort => {
                    if exists|t: int| 0 <= t < paths.len() && spec_cross_ok(tp, start,
                        end, extra, limit, #[trigger] paths[t]) && (paths[
                        t].0.node.is_bridge && paths[t].1.node.is_bridge) && (forall|
                        t2: int| 0 <= t2 < paths.len() && spec_cross_ok(tp, start,
                        end, extra, limit, #[trigger] paths[t2])
                        ==> !spec_cross_better(start, end, extra, paths[t2], paths[t])) {
                        let t2 = choose|t: int| 0 <= t < paths.len() && spec_cross_ok(
                            tp, start, end, extra, limit, #[trigger] paths[t]) && (
                            paths[t].0.node.is_bridge && paths[t].1.node.is_bridge) && (
                            forall|t3: int| 0 <= t3 < paths.len() && spec_cross_ok(tp,
                            start, end, extra, limit, #[trigger] paths[t3])
                            ==> !spec_cross_better(start, end, extra, paths[t3],
                            paths[t]));
                        assert(!spec_cross_better(start, end, extra, paths[t1],
                            paths[t2]));
                        assert(!spec_cross_better(start, end, extra, paths[t2],
                            paths[t1]));
                        assert(paths[t1] == paths[t2]);
                        assert(false);
                    } else {
                        assert(!spec_cross_ok(tp, start, end, extra, limit, paths[t1]));
                        assert(false);
                    }
                },
            }
        },
        NextNodeType::New(n1) => {
            match r2.next_node {
                NextNodeType::Existing(id2) => {
                    let k2 = choose|k: int| 0 <= k < nodes.len() && (#[trigger] nodes[
                        k]).node_id == id2 && spec_snap_ok(tp, start, end, extra,
                        limit, nodes[k], paths);
                    assert(!spec_snap_ok(tp, start, end, extra, limit, nodes[k2],
                        paths));
                    assert(false);
                },
                NextNodeType::Intersect(n2, ids2) => {
                    let t2 = choose|t: int| 0 <= t < paths.len() && (#[trigger] paths[
                        t]).0.node_id == ids2.0 && paths[t].1.node_id == ids2.1
                        && spec_cross_ok(tp, start, end, extra, limit, paths[t]);
                    assert(!spec_cross_ok(tp, start, end, extra, limit, paths[t2]));
                },
                NextNodeType::New(n2) => {
                    assert(n1 == end_node && n2 == end_node);
                },
                NextNodeType::Abort => {
                    if exists|t: int| 0 <= t < paths.len() && spec_cross_ok(tp, start,
                        end, extra, limit, #[trigger] paths[t]) {
                        let t2 = choose|t: int| 0 <= t < paths.len() && spec_cross_ok(
                            tp, start, end, extra, limit, #[trigger] paths[t]);
                        assert(!spec_cross_ok(tp, start, end, extra, limit, paths[t2]));
                    }
                    assert(false);
                },
            }
        },
        NextNodeType::Abort => {
            match r2.next_node {
                NextNodeType::Existing(id2) => {
                    let k2 = choose|k: int| 0 <= k < nodes.len() && (#[trigger] nodes[
                        k]).node_id == id2 && spec_snap_ok(tp, start, end, extra,
                        limit, nodes[k], paths);
                    assert(!spec_snap_ok(tp, start, end, extra, limit, nodes[k2],
                        paths));
                    assert(false);
                },
                NextNodeType::Intersect(n2, ids2) => {
                    let t2 = choose|t: int| 0 <= t < paths.len() && (#[trigger] paths[
                        t]).0.node_id == ids2.0 && paths[t].1.node_id == ids2.1
                        && spec_cross_ok(tp, start, end, extra, limit, paths[t])
                        && !(paths[t].0.node.is_bridge && paths[t].1.node.is_bridge)
                        && n2 == spec_cross_node(start, end, extra, paths[t]) && (
                        forall|t3: int| 0 <= t3 < paths.len() && spec_cross_ok(tp,
                        start, end, extra, limit, #[trigger] paths[t3])
                        ==> !spec_cross_better(start, end, extra, paths[t3], paths[t]));
                    if exists|t: int| 0 <= t < paths.len() && spec_cross_ok(tp, start,
                        end, extra, limit, #[trigger] paths[t]) && (paths[
                        t].0.node.is_bridge && paths[t].1.node.is_bridge) && (forall|
                        t3: int| 0 <= t3 < paths.len() && spec_cross_ok(tp, start,
                        end, extra, limit, #[trigger] paths[t3])
                        ==> !spec_cross_better(start, end, extra, paths[t3], paths[t])) {
                        let t1 = choose|t: int| 0 <= t < paths.len() && spec_cross_ok(
                            tp, start, end, extra, limit, #[trigger] paths[t]) && (
                            paths[t].0.node.is_bridge && paths[t].1.node.is_bridge) && (
                            forall|t3: int| 0 <= t3 < paths.len() && spec_cross_ok(tp,
                            start, end, extra, limit, #[trigger] paths[t3])
                            ==> !spec_cross_better(start, end, extra, paths[t3],
                            paths[t]));
                        assert(!spec_cross_better(start, end, extra, paths[t1],
                            paths[t2]));
                        assert(!spec_cross_better(start, end, extra, paths[t2],
                            paths[t1]));
                        assert(paths[t1] == paths[t2]);
                        assert(false);
                    } else {
                        assert(!spec_cross_ok(tp, start, end, extra, limit, paths[t2]));
                        assert(false);
                    }
                },
                NextNodeType::New(n2) => {
                    if exists|t: int| 0 <= t < paths.len() && spec_cross_ok(tp, start,
                        end, extra, limit, #[trigger] paths[t]) {
                        let t1 = choose|t: int| 0 <= t < paths.len() && spec_cross_ok(
                            tp, start, end, extra, limit, #[trigger] paths[t]);
                        assert(!spec_cross_ok(tp, start, end, extra, limit, paths[t1]));
                    }
                    assert(false);
                },
                NextNodeType::Abort => {},
            }
        },
    }
}

/// A snapped connection keeps the captured slope bound: where the
/// classifier answers an existing node, the slope from the start to
/// that node passes the slope check under the limit captured at this
/// step, so the created edge climbs within the captured bound.
pub proof fn lemma_snap_keeps_slope<TP: TerrainProvider>(
    tp: TP,
    start: Site,
    end: Site,
    end_node: TransportNode,
    extra: int,
    limit: GrowthRuleElevationDiff,
    nodes: Seq<RelatedNode>,
    paths: Seq<(RelatedNode, RelatedNode)>,
    r: GrowthTypes,
    id: NodeId,
)
    requires
        spec_growth_matches(tp, start, end, end_node, extra, limit, nodes, paths, r),
        r.next_node == NextNodeType::Existing(id),
    ensures
        exists|k: int| 0 <= k < nodes.len() && (#[trigger] nodes[k]).node_id == id
            && tp.elevation_spec(start) is Some && tp.elevation_spec(
            nodes[k].node.site) is Some && spec_check_slope(tp.elevation_spec(
            start).unwrap() as int, tp.elevation_spec(nodes[k].node.site).unwrap() as int,
            Site::spec_dist2(start, nodes[k].node.site), limit),
{
    let k = choose|k: int| 0 <= k < nodes.len() && (#[trigger] nodes[k]).node_id == id
        && spec_snap_ok(tp, start, end, extra, limit, nodes[k], paths) && (forall|
        k2: int| 0 <= k2 < nodes.len() && spec_snap_ok(tp, start, end, extra, limit,
        #[trigger] nodes[k2], paths) ==> !spec_snap_better_at(start, nodes, k2, k));
    assert(spec_snap_ok(tp, start, end, extra, limit, nodes[k], paths));
}

/// A fresh extension crosses nothing it was shown: where the classifier
/// answers a fresh node under a free slope limit and total terrain, no
/// related path properly crosses the search segment, which runs from
/// the start through the expected end and beyond by the extra search
/// length.
pub proof fn lemma_new_growth_crosses_nothing<TP: TerrainProvider>(
    tp: TP,
    start: Site,
    end: Site,
    end_node: TransportNode,
    extra: int,
    nodes: Seq<RelatedNode>,
    paths: Seq<(RelatedNode, RelatedNode)>,
    r: GrowthTypes,
    node: TransportNode,
)
    requires
        spec_growth_matches(tp, start, end, end_node, extra,
            GrowthRuleElevationDiff::AlwaysAllow, nodes, paths, r),
        r.next_node == NextNodeType::New(node),
        forall|s: Site| (#[trigger] tp.elevation_spec(s)) is Some,
    ensures
        forall|t: int| 0 <= t < paths.len() ==> !LineSegment::spec_proper_cross(
            LineSegment { from: (#[trigger] paths[t]).0.node.site,
            to: paths[t].1.node.site },
            LineSegment { from: start, to: spec_extended_end(start, end, extra) }),
{
    let limit = GrowthRuleElevationDiff::AlwaysAllow;
    assert forall|t: int| 0 <= t < paths.len() implies !LineSegment::spec_proper_cross(
        LineSegment { from: (#[trigger] paths[t]).0.node.site,
        to: paths[t].1.node.site },
        LineSegment { from: start, to: spec_extended_end(start, end, extra) }) by {
        assert(!spec_cross_ok(tp, start, end, extra, limit, paths[t]));
        if LineSegment::spec_proper_cross(LineSegment { from: paths[t].0.node.site,
            to: paths[t].1.node.site }, LineSegment { from: start,
            to: spec_extended_end(start, end, extra) }) {
            let p = spec_cross_point(start, end, extra, paths[t]).unwrap();
            assert(tp.elevation_spec(p) is Some);
            assert(false);
        }
    }
}

/// One clamped coordinate of the extended search end.
fn extend_coord(base: i64, delta: i64, num: u64, den: u64) -> (r: i64)
    requires
        -MAX_COORD <= base <= MAX_COORD,
        -200_000_000 <= delta <= 200_000_000,
        0 < den <= 300_000_000,
        den <= num <= den + 400_000_000,
    ensures
        r as int == spec_clamp_coord(base as int + spec_div_trunc(
            delta as int * num as int, den as int)),
        -MAX_COORD <= r <= MAX_COORD,
{
    let m: u64 = if delta >= 0 {
        delta as u64
    } else {
        (-delta) as u64
    };
    proof {
        assert(0 <= m as int * num as int <= 200_000_000 * 700_000_000)
            by (nonlinear_arith)
            requires
                0 <= m as int <= 200_000_000,
                0 <= num as int <= 700_000_000,
        {}
    }
    let mag: u64 = m * num / den;
    let off: i128 = if delta >= 0 {
        mag as i128
    } else {
        -(mag as i128)
    };
    proof {
        if delta < 0 {
            assert(m as int * num as int == -(delta as int * num as int))
                by (nonlinear_arith)
                requires m as int == -(delta as int),
            {}
        }
        assert(off as int == spec_div_trunc(delta as int * num as int, den as int));
    }
    let v: i128 = (base as i128) + off;
    if v < -(MAX_COORD as i128) {
        -MAX_COORD
    } else if v > MAX_COORD as i128 {
        MAX_COORD
    } else {
        v as i64
    }
}

} // verus!
