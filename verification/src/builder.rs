//! The growth engine: a candidate heap over a path network.
//!
//! The builder owns the network, the rule provider and the pending
//! stumps.  Each step pops the best stump (highest evaluation, first
//! enqueued among equals), searches a fan of directions for the best
//! admissible end site, asks the classifier what to grow, applies the
//! outcome through the network's verified operations, and enqueues up
//! to three children, so the graph invariants hold after every step.

use vstd::prelude::*;
use crate::angle::Angle;
use crate::angle::norm_mdeg;
use crate::geom::LineSegment;
use crate::geom::Site;
use crate::network::NodeId;
use crate::network::PathNetwork;
use crate::network::TransportNode;
use crate::providers::RandomProvider;
use crate::providers::TerrainProvider;
use crate::providers::TransportRulesProvider;
use crate::network::max_i;
use crate::network::max_usize;
use crate::network::min_i;
use crate::network::min_usize;
use crate::rules::PathDirectionRules;
use crate::rules::PathMetrics;
use crate::rules::TransportRule;
use crate::stump::GrowthTypes;
use crate::stump::spec_growth_matches;
use crate::stage::Stage;
use crate::stump::NextNodeType;
use crate::stump::NodeStump;
use crate::stump::PathParams;
use crate::stump::RelatedNode;

verus! {

/// The index `pop` takes from a stump sequence: the first stump of
/// maximal evaluation.
pub open spec fn spec_pop_index(s: Seq<NodeStump>) -> int
    decreases s.len(),
{
    if s.len() <= 1 {
        0
    } else {
        let p = spec_pop_index(s.drop_last());
        if s[s.len() - 1].params.evaluation > s[p].params.evaluation {
            s.len() - 1
        } else {
            p
        }
    }
}

/// The popped index is in range, carries the maximal evaluation, and is
/// the first index carrying it.
pub proof fn lemma_pop_index_max(s: Seq<NodeStump>)
    requires
        s.len() > 0,
    ensures
        0 <= spec_pop_index(s) < s.len(),
        forall|j: int| 0 <= j < s.len() ==> (#[trigger] s[j]).params.evaluation <= s[
            spec_pop_index(s)].params.evaluation,
        forall|j: int| 0 <= j < spec_pop_index(s) ==> (#[trigger] s[j]).params.evaluation
            < s[spec_pop_index(s)].params.evaluation,
    decreases s.len(),
{
    if s.len() > 1 {
        let d = s.drop_last();
        let p = spec_pop_index(d);
        lemma_pop_index_max(d);
        assert forall|j: int| 0 <= j < s.len() implies (#[trigger] s[
            j]).params.evaluation <= s[spec_pop_index(s)].params.evaluation by {
            if j < s.len() - 1 {
                assert(d[j] == s[j]);
                assert(d[j].params.evaluation <= d[p].params.evaluation);
                assert(d[p] == s[p]);
            }
        }
        assert forall|j: int| 0 <= j < spec_pop_index(s) implies (#[trigger] s[
            j]).params.evaluation < s[spec_pop_index(s)].params.evaluation by {
            assert(d[j] == s[j]);
            assert(d[p] == s[p]);
            if spec_pop_index(s) == s.len() - 1 {
                assert(d[j].params.evaluation <= d[p].params.evaluation);
            } else {
                assert(d[j].params.evaluation < d[p].params.evaluation);
            }
        }
    }
}

/// The stump a candidate creation enqueues: the expected end is the
/// start extended by the angle and length; if it lies in the world and
/// the provider admits it, the stump captures the returned rules and is
/// scored by their priority.
pub open spec fn spec_new_stump<TP: TransportRulesProvider>(
    p: TP,
    start_site: Site,
    start_id: NodeId,
    len: int,
    angle: Angle,
    stage: Stage,
    metrics: PathMetrics,
) -> Option<NodeStump> {
    match start_site.spec_extend(angle, len) {
        None => None,
        Some(site) => match p.rule_spec(site, stage, angle) {
            None => None,
            Some(rules) => Some(NodeStump {
                node_id: start_id,
                angle_expected: angle,
                params: PathParams {
                    stage,
                    rules_start: rules,
                    metrics,
                    evaluation: rules.path_priority,
                },
            }),
        },
    }
}

/// The sequence a pushed option contributes: one stump or nothing.
pub open spec fn opt_seq(o: Option<NodeStump>) -> Seq<NodeStump> {
    match o {
        Some(st) => seq![st],
        None => Seq::empty(),
    }
}

/// One direction candidate of the fan: the extended end site and the
/// provider's priority for it, if the site is in the world and
/// admitted.
pub open spec fn spec_dir_candidate<TP: TransportRulesProvider>(
    p: TP,
    start: Site,
    stage: Stage,
    len: int,
    angle: Angle,
) -> Option<(Site, i64)> {
    match start.spec_extend(angle, len) {
        None => None,
        Some(site) => match p.rule_spec(site, stage, angle) {
            None => None,
            Some(rules) => Some((site, rules.path_priority)),
        },
    }
}

/// The best direction among the first `n` fan angles: highest priority,
/// the earliest angle among equals.
pub open spec fn spec_best_dir<TP: TransportRulesProvider>(
    p: TP,
    start: Site,
    stage: Stage,
    len: int,
    fan: Seq<Angle>,
    n: int,
) -> Option<(Site, Angle, i64)>
    decreases n,
{
    if n <= 0 {
        None
    } else {
        let prev = spec_best_dir(p, start, stage, len, fan, n - 1);
        match spec_dir_candidate(p, start, stage, len, fan[n - 1]) {
            None => prev,
            Some(c) => match prev {
                None => Some((c.0, fan[n - 1], c.1)),
                Some(b) => if c.1 > b.2 {
                    Some((c.0, fan[n - 1], c.1))
                } else {
                    prev
                },
            },
        }
    }
}

/// What the direction search returns: the winning end site and its fan
/// angle, if any fan angle is admissible.
pub open spec fn spec_query<TP: TransportRulesProvider>(
    p: TP,
    start: Site,
    angle: Angle,
    stage: Stage,
    len: int,
    dir: PathDirectionRules,
) -> Option<(Site, Angle)> {
    let fan = angle.spec_fan(dir.max_angle as int, dir.comparison_step as int);
    match spec_best_dir(p, start, stage, len, fan, fan.len() as int) {
        None => None,
        Some(b) => Some((b.0, b.1)),
    }
}

/// The related nodes handed to the classifier are drawn exactly from
/// the network: each entry is a live node strictly within `radius` of
/// the segment, other than the origin, carrying the network's node
/// value; and every such node appears.
pub open spec fn spec_related_nodes_ok(
    nw: PathNetwork,
    origin: int,
    seg: LineSegment,
    radius: int,
    rel: Seq<RelatedNode>,
) -> bool {
    &&& forall|u: int| 0 <= u < rel.len() ==> nw.live_node((#[trigger] rel[
        u]).node_id.0 as int) && rel[u].node == nw.node_at(rel[u].node_id.0 as int)
        && rel[u].node_id.0 as int != origin && LineSegment::spec_dist_lt(
        seg, rel[u].node.site, radius)
    &&& forall|i: int| nw.live_node(i) && i != origin && LineSegment::spec_dist_lt(
        seg, (#[trigger] nw.node_at(i)).site, radius) ==> exists|u: int| 0 <= u
        < rel.len() && (#[trigger] rel[u]).node_id.0 as int == i
}

/// The related paths handed to the classifier are drawn exactly from
/// the network: each entry is a live edge, normalized small id first,
/// touching the closed rectangle, with no end at the origin, carrying
/// the network's node values; and every such edge appears.
pub open spec fn spec_related_paths_ok(
    nw: PathNetwork,
    origin: int,
    lx: int,
    ly: int,
    ux: int,
    uy: int,
    rel: Seq<(RelatedNode, RelatedNode)>,
) -> bool {
    &&& forall|u: int| 0 <= u < rel.len() ==> (#[trigger] rel[u]).0.node_id.0 < rel[
        u].1.node_id.0 && nw.has_edge(rel[u].0.node_id.0 as int, rel[
        u].1.node_id.0 as int) && nw.live_node(rel[u].0.node_id.0 as int)
        && nw.live_node(rel[u].1.node_id.0 as int) && rel[u].0.node == nw.node_at(
        rel[u].0.node_id.0 as int) && rel[u].1.node == nw.node_at(rel[
        u].1.node_id.0 as int) && rel[u].0.node_id.0 as int != origin && rel[
        u].1.node_id.0 as int != origin && nw.edge_touches_rect(rel[
        u].0.node_id.0 as int, rel[u].1.node_id.0 as int, lx, ly, ux, uy)
    &&& forall|j: int| nw.edge_live(j) && (#[trigger] nw.edge_pair(j)).0 as int
        != origin && nw.edge_pair(j).1 as int != origin && nw.edge_touches_rect(
        nw.edge_pair(j).0 as int, nw.edge_pair(j).1 as int, lx, ly, ux, uy)
        ==> exists|u: int| 0 <= u < rel.len() && (#[trigger] rel[u]).0.node_id.0
        == nw.edge_pair(j).0 && rel[u].1.node_id.0 == nw.edge_pair(j).1
}

/// The children a fresh extension enqueues, and how many random values
/// it draws, read from the stream of `rng0` starting at its current
/// position.  The fixed order is: clockwise branch decision, clockwise
/// staging (only where that child is proposed), counter-clockwise
/// branch decision, counter-clockwise staging (only where proposed).
/// The straight child is always attempted; a perpendicular child is
/// proposed where its branch draw falls below the branch density or
/// the straight child could not be enqueued.
pub open spec fn spec_children<TP: TransportRulesProvider, R: RandomProvider>(
    p: TP,
    rng0: R,
    node: TransportNode,
    nid: NodeId,
    rules: TransportRule,
    angle_grow: Angle,
    stage: Stage,
    metrics: PathMetrics,
) -> (Seq<NodeStump>, nat) {
    let k0 = rng0.draws();
    let len = rules.path_normal_length as int;
    let straight = spec_new_stump(p, node.site, nid, len, angle_grow, stage,
        spec_sat_extend(metrics));
    let ext = straight is Some;
    let bm = spec_sat_branch(metrics);
    let cw_prop = rng0.draw_at(k0) < rules.branch_rule.branch_density || !ext;
    let cw = if cw_prop {
        opt_seq(spec_new_stump(p, node.site, nid, len,
            angle_grow.spec_right_clockwise(), spec_staged(stage, rng0.draw_at(k0 + 1)
            < rules.branch_rule.staging_probability), bm))
    } else {
        Seq::<NodeStump>::empty()
    };
    let k1 = if cw_prop { k0 + 2 } else { k0 + 1 };
    let ccw_prop = rng0.draw_at(k1) < rules.branch_rule.branch_density || !ext;
    let ccw = if ccw_prop {
        opt_seq(spec_new_stump(p, node.site, nid, len,
            angle_grow.spec_right_counterclockwise(), spec_staged(stage, rng0.draw_at(
            k1 + 1) < rules.branch_rule.staging_probability), bm))
    } else {
        Seq::<NodeStump>::empty()
    };
    let total = if ccw_prop { k1 + 2 } else { k1 + 1 };
    (opt_seq(straight) + cw + ccw, (total - k0) as nat)
}

/// The growth engine: the candidate heap, the network under
/// construction, and the rule provider that scores extensions.
pub struct TransportBuilder<TP: TransportRulesProvider> {
    path_network: PathNetwork,
    rules_provider: TP,
    stumps: Vec<NodeStump>,
}

impl<TP: TransportRulesProvider> TransportBuilder<TP> {
    /// The network under construction.
    pub closed spec fn network(self) -> PathNetwork {
        self.path_network
    }

    /// The pending stumps, in enqueue order.
    pub closed spec fn stumps_seq(self) -> Seq<NodeStump> {
        self.stumps@
    }

    /// The rule provider.
    pub closed spec fn provider(self) -> TP {
        self.rules_provider
    }

    /// The network is well-formed and every pending stump carries
    /// admitted values.
    pub open spec fn wf(self) -> bool {
        &&& self.network().wf()
        &&& forall|k: int| 0 <= k < self.stumps_seq().len() ==> (#[trigger]
            self.stumps_seq()[k]).wf()
    }

    /// What one growth step does, as a relation between the builder
    /// and random provider before (`self`, `rng0`) and after (`r`,
    /// `rng1`).  An empty heap changes nothing.  Otherwise the best
    /// stump is popped; a dead origin or a failed direction search
    /// discards it with nothing else changed; else, for a growth the
    /// classifier characterizes over the related sets drawn exactly
    /// from the network, the outcome is applied.
    pub open spec fn spec_step_post<TR: TerrainProvider, R: RandomProvider>(
        self,
        terrain: TR,
        rng0: R,
        r: Self,
        rng1: R,
    ) -> bool {
        let s = self.stumps_seq();
        let nw = self.network();
        if s.len() == 0 {
            r.network() == nw && r.stumps_seq() == s && rng1.draws() == rng0.draws()
        } else {
            let popped = s[spec_pop_index(s)];
            let base = s.remove(spec_pop_index(s));
            let origin = popped.node_id.0 as int;
            let rules = popped.params.rules_start;
            if !nw.live_node(origin) {
                r.network() == nw && r.stumps_seq() == base && rng1.draws()
                    == rng0.draws()
            } else {
                let start = nw.node_at(origin).site;
                match spec_query(self.provider(), start, popped.angle_expected,
                    popped.params.stage, rules.path_normal_length as int,
                    rules.path_direction_rule) {
                    None => r.network() == nw && r.stumps_seq() == base && rng1.draws()
                        == rng0.draws(),
                    Some(q) => exists|rel_nodes: Seq<RelatedNode>, rel_paths: Seq<
                        (RelatedNode, RelatedNode)>, g: GrowthTypes|
                        #![auto]
                        {
                            &&& spec_related_nodes_ok(nw, origin, LineSegment {
                                from: start, to: q.0 },
                                rules.path_extra_length_for_intersection as int,
                                rel_nodes)
                            &&& spec_related_paths_ok(nw, origin, min_i(
                                start.x as int, q.0.x as int), min_i(start.y as int,
                                q.0.y as int), max_i(start.x as int, q.0.x as int),
                                max_i(start.y as int, q.0.y as int), rel_paths)
                            &&& spec_growth_matches(terrain, start, q.0,
                                TransportNode { site: q.0, stage: popped.params.stage,
                                is_bridge: false },
                                rules.path_extra_length_for_intersection as int,
                                rules.path_slope_elevation_diff_limit, rel_nodes,
                                rel_paths, g)
                            &&& self.spec_outcome_applied(popped, q.1, g, rng0, r, rng1)
                        },
                }
            }
        }
    }

    /// The network, heap and random-draw effects of the classified
    /// growth `g`, applied to this builder after popping `popped`.
    pub open spec fn spec_outcome_applied<R: RandomProvider>(
        self,
        popped: NodeStump,
        angle_grow: Angle,
        g: GrowthTypes,
        rng0: R,
        r: Self,
        rng1: R,
    ) -> bool {
        let nw = self.network();
        let base = self.stumps_seq().remove(spec_pop_index(self.stumps_seq()));
        let origin = popped.node_id.0;
        let rules = popped.params.rules_start;
        let nid = nw.nodes_seq().len() as usize;
        match g.next_node {
            NextNodeType::New(node) => {
                let ch = spec_children(self.provider(), rng0, node, NodeId(nid), rules,
                    angle_grow, popped.params.stage, popped.params.metrics);
                &&& r.network().nodes_seq() == nw.nodes_seq().push(Some(node))
                &&& r.network().edges_seq() == nw.edges_seq().push(Some((min_usize(
                    origin, nid), max_usize(origin, nid))))
                &&& r.stumps_seq() == base + ch.0
                &&& rng1.draws() == rng0.draws() + ch.1
            },
            NextNodeType::Existing(id) => {
                &&& r.network().nodes_seq() == nw.nodes_seq()
                &&& r.network().edges_seq() == if nw.has_edge(origin as int,
                    id.0 as int) {
                    nw.edges_seq()
                } else {
                    nw.edges_seq().push(Some((min_usize(origin, id.0), max_usize(
                        origin, id.0))))
                }
                &&& r.stumps_seq() == base
                &&& rng1.draws() == rng0.draws()
            },
            NextNodeType::Intersect(node, ids) => {
                &&& r.network().nodes_seq() == nw.nodes_seq().push(Some(node))
                &&& exists|j: int| #![auto] nw.edge_live(j) && nw.edge_pair(j) == (
                    ids.0.0, ids.1.0) && r.network().edges_seq() == nw.edges_seq()
                    .update(j, None).push(Some((min_usize(origin, nid), max_usize(
                    origin, nid)))).push(Some((min_usize(nid, ids.0.0), max_usize(nid,
                    ids.0.0)))).push(Some((min_usize(nid, ids.1.0), max_usize(nid,
                    ids.1.0))))
                &&& r.stumps_seq() == base
                &&& rng1.draws() == rng0.draws()
            },
            NextNodeType::Abort => {
                &&& r.network().nodes_seq() == nw.nodes_seq()
                &&& r.network().edges_seq() == nw.edges_seq()
                &&& r.stumps_seq() == base
                &&& rng1.draws() == rng0.draws()
            },
        }
    }

    /// Whether one driver step leads from `a` to `b`: inside the slot
    /// caps a full growth step; at the caps, which no practical run
    /// reaches, no change.
    pub open spec fn spec_guarded_step<TR: TerrainProvider, R: RandomProvider>(
        a: Self,
        terrain: TR,
        rng0: R,
        b: Self,
        rng1: R,
    ) -> bool {
        if a.network().nodes_seq().len() + 2 < usize::MAX
            && a.network().edges_seq().len() + 4 < usize::MAX {
            a.spec_step_post(terrain, rng0, b, rng1)
        } else {
            b == a && rng1 == rng0
        }
    }

    /// `b` follows from `a` by `n` driver steps.
    pub open spec fn spec_steps<TR: TerrainProvider, R: RandomProvider>(
        a: Self,
        n: nat,
        terrain: TR,
        rng0: R,
        b: Self,
        rng1: R,
    ) -> bool
        decreases n,
    {
        if n == 0 {
            b == a && rng1 == rng0
        } else {
            exists|m: Self, rm: R|
                #![auto]
                Self::spec_guarded_step(a, terrain, rng0, m, rm) && Self::spec_steps(
                    m, (n - 1) as nat, terrain, rm, b, rng1)
        }
    }

    /// A chain of steps followed by one more step is a chain one step
    /// longer.
    pub proof fn lemma_steps_snoc<TR: TerrainProvider, R: RandomProvider>(
        a: Self,
        n: nat,
        terrain: TR,
        rng0: R,
        b: Self,
        rng1: R,
        c: Self,
        rng2: R,
    )
        requires
            Self::spec_steps(a, n, terrain, rng0, b, rng1),
            Self::spec_guarded_step(b, terrain, rng1, c, rng2),
        ensures
            Self::spec_steps(a, (n + 1) as nat, terrain, rng0, c, rng2),
        decreases n,
    {
        if n == 0 {
            assert(Self::spec_guarded_step(a, terrain, rng0, c, rng2));
            assert(Self::spec_steps(c, 0, terrain, rng2, c, rng2));
        } else {
            let (m, rm) = choose|m: Self, rm: R|
                #![auto]
                Self::spec_guarded_step(a, terrain, rng0, m, rm) && Self::spec_steps(
                    m, (n - 1) as nat, terrain, rm, b, rng1);
            Self::lemma_steps_snoc(m, (n - 1) as nat, terrain, rm, b, rng1, c, rng2);
        }
    }

    /// A builder over an empty network.
    pub fn new(rules_provider: TP) -> (r: Self)
        ensures
            r.wf(),
            r.network().nodes_seq().len() == 0,
            r.network().edges_seq().len() == 0,
            r.stumps_seq().len() == 0,
            r.provider() == rules_provider,
    {
        Self {
            path_network: PathNetwork::new(),
            rules_provider,
            stumps: Vec::new(),
        }
    }

    /// The finished network, compacted: orphan nodes dropped.
    pub fn build(self) -> (r: PathNetwork)
        requires
            self.wf(),
        ensures
            r.wf(),
            r.edges_seq() == self.network().edges_seq(),
            r.nodes_seq() == self.network().optimized_nodes(),
    {
        self.path_network.into_optimized()
    }

    /// Enqueues the stump for one expected extension, if its end site
    /// lies in the world and the provider admits it; says whether one
    /// was enqueued.
    fn create_new_candidate(
        &mut self,
        node_start: TransportNode,
        node_start_id: NodeId,
        path_length: i64,
        angle_expected_end: Angle,
        stage: Stage,
        metrics: PathMetrics,
    ) -> (r: bool)
        requires
            old(self).wf(),
            node_start.site.wf(),
            angle_expected_end.wf(),
            0 <= path_length <= crate::geom::MAX_LEN,
        ensures
            final(self).wf(),
            final(self).network() == old(self).network(),
            final(self).provider() == old(self).provider(),
            match spec_new_stump(old(self).provider(), node_start.site, node_start_id,
                path_length as int, angle_expected_end, stage, metrics) {
                Some(st) => r && final(self).stumps_seq() == old(self).stumps_seq().push(
                    st),
                None => !r && final(self).stumps_seq() == old(self).stumps_seq(),
            },
    {
        let site_expected_end: Site = match node_start.site.extend(
            angle_expected_end, path_length) {
            Some(s) => s,
            None => { return false; },
        };
        let rules = match self.rules_provider.get_rules(
            &site_expected_end, stage, angle_expected_end) {
            Some(ru) => ru,
            None => { return false; },
        };
        let stump = NodeStump::new(node_start_id, angle_expected_end, PathParams {
            stage,
            rules_start: rules,
            metrics,
            evaluation: rules.path_priority,
        });
        self.stumps.push(stump);
        proof {
            assert forall|k2: int| 0 <= k2 < self.stumps_seq().len() implies (#[trigger]
                self.stumps_seq()[k2]).wf() by {
                if k2 < old(self).stumps_seq().len() {
                    assert(old(self).stumps_seq()[k2].wf());
                } else {
                    assert(self.stumps_seq()[k2] == stump);
                }
            }
        }
        true
    }

    /// Adds an origin node and enqueues the two seed stumps, forward
    /// and opposite.  Where the provider rejects the origin itself, the
    /// whole seed is rejected.
    pub fn add_origin(self, origin_site: Site, angle_mdeg: i64, stage: Option<Stage>) -> (
        r: Option<Self>)
        requires
            self.wf(),
            origin_site.wf(),
            angle_mdeg > i64::MIN,
            self.network().nodes_seq().len() < usize::MAX,
        ensures
            ({
                let st = if stage is Some { stage.unwrap() } else { Stage(0usize) };
                let a = Angle { mdeg: norm_mdeg(angle_mdeg as int) as i64 };
                let rules_opt = self.provider().rule_spec(origin_site, st, a);
                &&& (r is Some <==> rules_opt is Some)
                &&& r matches Some(b) ==> {
                    let nid = NodeId(self.network().nodes_seq().len() as usize);
                    let len = rules_opt.unwrap().path_normal_length as int;
                    let c1 = spec_new_stump(self.provider(), origin_site, nid, len, a,
                        st, PathMetrics { branch_count: 0u64,
                        extend_count_since_last_branched: 0u64 });
                    let c2 = spec_new_stump(self.provider(), origin_site, nid, len,
                        a.spec_opposite(), st, PathMetrics { branch_count: 0u64,
                        extend_count_since_last_branched: 0u64 });
                    &&& b.wf()
                    &&& b.provider() == self.provider()
                    &&& b.network().nodes_seq() == self.network().nodes_seq().push(
                        Some(TransportNode { site: origin_site, stage: st,
                        is_bridge: false }))
                    &&& b.network().edges_seq() == self.network().edges_seq()
                    &&& b.stumps_seq() == self.stumps_seq() + opt_seq(c1) + opt_seq(c2)
                }
            }),
    {
        let mut me = self;
        let st: Stage = match stage {
            Some(s) => s,
            None => Stage::new(0),
        };
        let angle = Angle::new(angle_mdeg);
        let origin_node = TransportNode::new(origin_site, st, false);
        let origin_node_id = me.path_network.add_node(origin_node);
        proof {
            assert(me.stumps_seq() == self.stumps_seq());
            assert(me.wf());
        }
        let rules = match me.rules_provider.get_rules(&origin_site, st, angle) {
            Some(ru) => ru,
            None => { return None; },
        };
        let len: i64 = rules.path_normal_length;
        let ghost pre1 = me.stumps@;
        let c1 = me.create_new_candidate(
            origin_node, origin_node_id, len, angle, st, PathMetrics::new());
        let c2 = me.create_new_candidate(
            origin_node, origin_node_id, len, angle.opposite(), st, PathMetrics::new());
        proof {
            assert(me.stumps_seq() =~= self.stumps_seq() + opt_seq(spec_new_stump(
                self.provider(), origin_site, origin_node_id, len as int, angle, st,
                PathMetrics { branch_count: 0u64, extend_count_since_last_branched: 0u64 }))
                + opt_seq(spec_new_stump(self.provider(), origin_site, origin_node_id,
                len as int, angle.spec_opposite(), st, PathMetrics { branch_count: 0u64,
                extend_count_since_last_branched: 0u64 })));
        }
        Some(me)
    }

    /// The direction search: samples the fan of angles around the
    /// expected one and picks the admissible end site of the highest
    /// priority, the earliest fan angle among equals.
    fn query_expected_end_of_path(
        &self,
        site_start: Site,
        angle_expected: Angle,
        stage: Stage,
        path_length: i64,
        path_direction_rules: &PathDirectionRules,
    ) -> (r: Option<(Site, Angle)>)
        requires
            site_start.wf(),
            angle_expected.wf(),
            0 <= path_length <= crate::geom::MAX_LEN,
            path_direction_rules.wf(),
        ensures
            r == spec_query(self.provider(), site_start, angle_expected, stage,
                path_length as int, *path_direction_rules),
            r matches Some(x) ==> x.0.wf() && x.1.wf(),
    {
        let fan: Vec<Angle> = angle_expected.iter_range_around(
            path_direction_rules.max_angle, path_direction_rules.comparison_step);
        let mut best: Option<(Site, Angle, i64)> = None;
        let mut i: usize = 0;
        while i < fan.len()
            invariant
                site_start.wf(),
                0 <= path_length <= crate::geom::MAX_LEN,
                i <= fan@.len(),
                fan@ == angle_expected.spec_fan(
                    path_direction_rules.max_angle as int,
                    path_direction_rules.comparison_step as int),
                forall|j: int| 0 <= j < fan@.len() ==> (#[trigger] fan@[j]).wf(),
                best == spec_best_dir(self.provider(), site_start, stage,
                    path_length as int, fan@, i as int),
                best matches Some(b) ==> b.0.wf() && b.1.wf(),
            decreases fan@.len() - i,
        {
            let a: Angle = fan[i];
            let cand: Option<(Site, i64)> = match site_start.extend(a, path_length) {
                None => None,
                Some(site) => match self.rules_provider.get_rules(&site, stage, a) {
                    None => None,
                    Some(ru) => Some((site, ru.path_priority)),
                },
            };
            proof {
                assert(cand == spec_dir_candidate(self.provider(), site_start, stage,
                    path_length as int, fan@[i as int]));
            }
            match cand {
                None => {},
                Some(c) => {
                    let take: bool = match &best {
                        None => true,
                        Some(b) => c.1 > b.2,
                    };
                    if take {
                        best = Some((c.0, a, c.1));
                    }
                },
            }
            i = i + 1;
        }
        match best {
            None => None,
            Some(b) => Some((b.0, b.1)),
        }
    }

    /// Pops the best stump: highest evaluation, first enqueued among
    /// equals.
    fn pop_best(&mut self) -> (r: Option<NodeStump>)
        requires
            old(self).wf(),
        ensures
            final(self).wf(),
            final(self).network() == old(self).network(),
            final(self).provider() == old(self).provider(),
            old(self).stumps_seq().len() == 0 ==> r is None && final(self).stumps_seq()
                == old(self).stumps_seq(),
            old(self).stumps_seq().len() > 0 ==> r == Some(old(self).stumps_seq()[
                spec_pop_index(old(self).stumps_seq())]) && final(self).stumps_seq()
                == old(self).stumps_seq().remove(spec_pop_index(old(self).stumps_seq())),
    {
        if self.stumps.len() == 0 {
            return None;
        }
        let mut bi: usize = 0;
        let mut j: usize = 1;
        proof {
            assert(self.stumps@.subrange(0, 1) =~= seq![self.stumps@[0]]);
        }
        while j < self.stumps.len()
            invariant
                1 <= j <= self.stumps@.len(),
                bi < j,
                bi as int == spec_pop_index(self.stumps@.subrange(0, j as int)),
            decreases self.stumps@.len() - j,
        {
            proof {
                let pre = self.stumps@.subrange(0, j as int);
                let cur = self.stumps@.subrange(0, j as int + 1);
                assert(cur.drop_last() =~= pre);
                assert(cur[cur.len() - 1] == self.stumps@[j as int]);
                assert(forall|t: int| 0 <= t < pre.len() ==> #[trigger] pre[t]
                    == self.stumps@[t]);
            }
            let better: bool = self.stumps[j].params.evaluation
                > self.stumps[bi].params.evaluation;
            if better {
                bi = j;
            }
            j = j + 1;
        }
        proof {
            assert(self.stumps@.subrange(0, self.stumps@.len() as int) =~= self.stumps@);
            lemma_pop_index_max(self.stumps@);
        }
        let st = self.stumps.remove(bi);
        proof {
            assert forall|k2: int| 0 <= k2 < self.stumps_seq().len() implies (#[trigger]
                self.stumps_seq()[k2]).wf() by {
                if k2 < bi as int {
                    assert(old(self).stumps_seq()[k2].wf());
                } else {
                    assert(self.stumps_seq()[k2] == old(self).stumps_seq()[k2 + 1]);
                }
            }
        }
        Some(st)
    }

    /// One growth step: pops the best stump, searches its direction
    /// fan, classifies the growth, applies the outcome and enqueues
    /// children, exactly as `spec_step_post` describes.  Every newly
    /// enqueued stump stays at the popped stump's stage or moves one
    /// stage finer.
    #[verifier::rlimit(100)]
    #[verifier::spinoff_prover]
    pub fn iterate<TR: TerrainProvider, R: RandomProvider>(
        self,
        terrain_provider: &TR,
        rng: &mut R,
    ) -> (r: Self)
        requires
            self.wf(),
            self.network().nodes_seq().len() + 2 < usize::MAX,
            self.network().edges_seq().len() + 4 < usize::MAX,
        ensures
            r.wf(),
            r.provider() == self.provider(),
            forall|k: nat| final(rng).draw_at(k) == old(rng).draw_at(k),
            self.spec_step_post(*terrain_provider, *old(rng), r, *final(rng)),
            self.stumps_seq().len() > 0 ==> (forall|k: int| 0 <= k < r.stumps_seq().len()
                ==> self.stumps_seq().remove(spec_pop_index(self.stumps_seq())).contains(
                #[trigger] r.stumps_seq()[k]) || r.stumps_seq()[k].params.stage.as_int()
                == self.stumps_seq()[spec_pop_index(
                self.stumps_seq())].params.stage.as_int() || r.stumps_seq()[
                k].params.stage.as_int() == self.stumps_seq()[spec_pop_index(
                self.stumps_seq())].params.stage.as_int() + 1),
    {
        let mut me = self;
        let stump: NodeStump = match me.pop_best() {
            Some(st) => st,
            None => { return me; },
        };
        let ghost base = me.stumps_seq();
        let ghost pstage = stump.params.stage;
        proof {
            assert(base == self.stumps_seq().remove(spec_pop_index(self.stumps_seq())));
            assert(stump.wf()) by {
                lemma_pop_index_max(self.stumps_seq());
            }
        }
        let node_start: TransportNode = match me.path_network.get_node(
            stump.get_node_id()) {
            Some(n) => n,
            None => { return me; },
        };
        proof {
            assert(me.network().live_node(stump.spec_node_id().0 as int));
            assert(node_start.site.wf());
        }
        let rules = stump.get_path_params().rules_start;
        let q: Option<(Site, Angle)> = me.query_expected_end_of_path(
            node_start.site,
            stump.angle_expected(),
            stump.get_path_params().stage,
            rules.path_normal_length,
            &rules.path_direction_rule,
        );
        let (site_end, angle_grow): (Site, Angle) = match q {
            Some(x) => x,
            None => { return me; },
        };
        let seg = LineSegment::new(node_start.site, site_end);
        let ghost radius = rules.path_extra_length_for_intersection as int;
        let near_ids: Vec<NodeId> = me.path_network.nodes_around_line(
            seg, rules.path_extra_length_for_intersection);
        let mut related_nodes: Vec<RelatedNode> = Vec::new();
        let mut k: usize = 0;
        while k < near_ids.len()
            invariant
                me.wf(),
                k <= near_ids@.len(),
                seg == (LineSegment { from: node_start.site, to: site_end }),
                forall|t: int| 0 <= t < near_ids@.len() ==> me.network().live_node(
                    (#[trigger] near_ids@[t]).0 as int) && LineSegment::spec_dist_lt(
                    seg, me.network().node_at(near_ids@[t].0 as int).site, radius),
                forall|u: int| 0 <= u < related_nodes@.len() ==> me.network().live_node(
                    (#[trigger] related_nodes@[u]).node_id.0 as int)
                    && related_nodes@[u].node == me.network().node_at(
                    related_nodes@[u].node_id.0 as int)
                    && related_nodes@[u].node_id.0 != stump.spec_node_id().0
                    && LineSegment::spec_dist_lt(seg, related_nodes@[u].node.site,
                    radius),
                forall|t: int| 0 <= t < k as int && (#[trigger] near_ids@[t]).0
                    != stump.spec_node_id().0 ==> exists|u: int| 0 <= u
                    < related_nodes@.len() && (#[trigger] related_nodes@[u]).node_id
                    == near_ids@[t],
            decreases near_ids@.len() - k,
        {
            let id = near_ids[k];
            if id.0 != stump.get_node_id().0 {
                match me.path_network.get_node(id) {
                    Some(n) => {
                        proof {
                            assert(me.network().node_at(id.0 as int).site.wf());
                        }
                        let ghost rpre = related_nodes@;
                        related_nodes.push(RelatedNode { node: n, node_id: id });
                        proof {
                            assert(related_nodes@[related_nodes@.len() - 1].node_id
                                == id);
                            assert forall|t: int| 0 <= t < k as int + 1 && (#[trigger]
                                near_ids@[t]).0 != stump.spec_node_id().0 implies
                                exists|u: int| 0 <= u < related_nodes@.len()
                                && (#[trigger] related_nodes@[u]).node_id
                                == near_ids@[t] by {
                                if t < k as int {
                                    let u0 = choose|u: int| 0 <= u < rpre.len()
                                        && (#[trigger] rpre[u]).node_id == near_ids@[t];
                                    assert(related_nodes@[u0].node_id == near_ids@[t]);
                                } else {
                                    assert(related_nodes@[related_nodes@.len()
                                        - 1].node_id == near_ids@[t]);
                                }
                            }
                        }
                    },
                    None => {
                        proof {
                            assert(false);
                        }
                    },
                }
            }
            k = k + 1;
        }
        proof {
            assert(spec_related_nodes_ok(me.network(), stump.spec_node_id().0 as int,
                seg, radius, related_nodes@)) by {
                assert forall|i: int| me.network().live_node(i) && i
                    != stump.spec_node_id().0 as int && LineSegment::spec_dist_lt(
                    seg, (#[trigger] me.network().node_at(i)).site, radius) implies
                    exists|u: int| 0 <= u < related_nodes@.len() && (#[trigger]
                    related_nodes@[u]).node_id.0 as int == i by {
                    assert(near_ids@.contains(NodeId(i as usize)));
                    let t = choose|t: int| 0 <= t < near_ids@.len() && near_ids@[t]
                        == NodeId(i as usize);
                    let u0 = choose|u: int| 0 <= u < related_nodes@.len()
                        && (#[trigger] related_nodes@[u]).node_id == near_ids@[t];
                    assert(related_nodes@[u0].node_id.0 as int == i);
                }
            }
        }
        let near_pairs: Vec<(NodeId, NodeId)> = me.path_network.paths_touching_rect(
            node_start.site, site_end);
        let ghost rlx = min_i(node_start.site.x as int, site_end.x as int);
        let ghost rly = min_i(node_start.site.y as int, site_end.y as int);
        let ghost rux = max_i(node_start.site.x as int, site_end.x as int);
        let ghost ruy = max_i(node_start.site.y as int, site_end.y as int);
        let mut related_paths: Vec<(RelatedNode, RelatedNode)> = Vec::new();
        let mut t: usize = 0;
        while t < near_pairs.len()
            invariant
                me.wf(),
                t <= near_pairs@.len(),
                forall|u: int| 0 <= u < near_pairs@.len() ==> me.network().has_edge(
                    (#[trigger] near_pairs@[u]).0.0 as int, near_pairs@[u].1.0 as int)
                    && near_pairs@[u].0.0 < near_pairs@[u].1.0 && me.network()
                    .edge_touches_rect(near_pairs@[u].0.0 as int,
                    near_pairs@[u].1.0 as int, rlx, rly, rux, ruy),
                forall|u: int| 0 <= u < related_paths@.len() ==> (#[trigger]
                    related_paths@[u]).0.node_id.0 < related_paths@[u].1.node_id.0
                    && me.network().has_edge(related_paths@[u].0.node_id.0 as int,
                    related_paths@[u].1.node_id.0 as int) && me.network().live_node(
                    related_paths@[u].0.node_id.0 as int) && me.network().live_node(
                    related_paths@[u].1.node_id.0 as int) && related_paths@[u].0.node
                    == me.network().node_at(related_paths@[u].0.node_id.0 as int)
                    && related_paths@[u].1.node == me.network().node_at(
                    related_paths@[u].1.node_id.0 as int) && related_paths@[
                    u].0.node_id.0 != stump.spec_node_id().0 && related_paths@[
                    u].1.node_id.0 != stump.spec_node_id().0 && me.network()
                    .edge_touches_rect(related_paths@[u].0.node_id.0 as int,
                    related_paths@[u].1.node_id.0 as int, rlx, rly, rux, ruy),
                forall|v: int| 0 <= v < t as int && (#[trigger] near_pairs@[v]).0.0
                    != stump.spec_node_id().0 && near_pairs@[v].1.0
                    != stump.spec_node_id().0 ==> exists|u: int| 0 <= u
                    < related_paths@.len() && (#[trigger] related_paths@[u]).0.node_id
                    == near_pairs@[v].0 && related_paths@[u].1.node_id
                    == near_pairs@[v].1,
            decreases near_pairs@.len() - t,
        {
            let pr = near_pairs[t];
            if pr.0.0 != stump.get_node_id().0 && pr.1.0 != stump.get_node_id().0 {
                proof {
                    let j = choose|j: int| me.network().edge_live(j) && (#[trigger]
                        me.network().edge_pair(j)).0 == min_i(pr.0.0 as int,
                        pr.1.0 as int) && me.network().edge_pair(j).1 == max_i(
                        pr.0.0 as int, pr.1.0 as int);
                    assert(me.network().live_node(pr.0.0 as int) && me.network()
                        .live_node(pr.1.0 as int));
                }
                let na = me.path_network.get_node(pr.0);
                let nb = me.path_network.get_node(pr.1);
                match (na, nb) {
                    (Some(a), Some(b)) => {
                        proof {
                            assert(me.network().node_at(pr.0.0 as int).site.wf());
                            assert(me.network().node_at(pr.1.0 as int).site.wf());
                        }
                        let ghost rpre = related_paths@;
                        related_paths.push((
                            RelatedNode { node: a, node_id: pr.0 },
                            RelatedNode { node: b, node_id: pr.1 },
                        ));
                        proof {
                            assert(related_paths@[related_paths@.len() - 1] == (
                                RelatedNode { node: a, node_id: pr.0 },
                                RelatedNode { node: b, node_id: pr.1 },
                            ));
                            assert forall|v: int| 0 <= v < t as int + 1 && (#[trigger]
                                near_pairs@[v]).0.0 != stump.spec_node_id().0
                                && near_pairs@[v].1.0 != stump.spec_node_id().0
                                implies exists|u: int| 0 <= u < related_paths@.len()
                                && (#[trigger] related_paths@[u]).0.node_id
                                == near_pairs@[v].0 && related_paths@[u].1.node_id
                                == near_pairs@[v].1 by {
                                if v < t as int {
                                    let u0 = choose|u: int| 0 <= u < rpre.len()
                                        && (#[trigger] rpre[u]).0.node_id
                                        == near_pairs@[v].0 && rpre[u].1.node_id
                                        == near_pairs@[v].1;
                                    assert(related_paths@[u0].0.node_id
                                        == near_pairs@[v].0 && related_paths@[
                                        u0].1.node_id == near_pairs@[v].1);
                                } else {
                                    assert(related_paths@[related_paths@.len()
                                        - 1].0.node_id == near_pairs@[v].0);
                                }
                            }
                        }
                    },
                    _ => {
                        proof {
                            assert(false);
                        }
                    },
                }
            }
            t = t + 1;
        }
        proof {
            assert(spec_related_paths_ok(me.network(), stump.spec_node_id().0 as int,
                rlx, rly, rux, ruy, related_paths@)) by {
                assert forall|j: int| me.network().edge_live(j) && (#[trigger]
                    me.network().edge_pair(j)).0 as int != stump.spec_node_id().0 as int
                    && me.network().edge_pair(j).1 as int
                    != stump.spec_node_id().0 as int && me.network().edge_touches_rect(
                    me.network().edge_pair(j).0 as int,
                    me.network().edge_pair(j).1 as int, rlx, rly, rux, ruy) implies
                    exists|u: int| 0 <= u < related_paths@.len() && (#[trigger]
                    related_paths@[u]).0.node_id.0 == me.network().edge_pair(j).0
                    && related_paths@[u].1.node_id.0 == me.network().edge_pair(j).1 by {
                    assert(near_pairs@.contains((NodeId(me.network().edge_pair(j).0),
                        NodeId(me.network().edge_pair(j).1))));
                    let v = choose|v: int| 0 <= v < near_pairs@.len() && near_pairs@[v]
                        == (NodeId(me.network().edge_pair(j).0), NodeId(me.network()
                        .edge_pair(j).1));
                    let u0 = choose|u: int| 0 <= u < related_paths@.len()
                        && (#[trigger] related_paths@[u]).0.node_id == near_pairs@[v].0
                        && related_paths@[u].1.node_id == near_pairs@[v].1;
                    assert(related_paths@[u0].0.node_id.0 == me.network().edge_pair(
                        j).0 && related_paths@[u0].1.node_id.0 == me.network()
                        .edge_pair(j).1);
                }
            }
        }
        // A fresh end node is never a bridge end: the direction search
        // places the expected end at exactly the normal path length, so
        // an extension can never exceed it as a bridge would have to.
        // Bridge ends enter a network only on externally built nodes;
        // the classifier then refuses to cross their edges.
        let node_expected_end = TransportNode::new(
            site_end, stump.get_path_params().stage, false);
        let growth = stump.determine_growth(
            &node_start, &node_expected_end, &related_nodes, &related_paths,
            terrain_provider);
        let ghost nwpre = me.network();
        let ghost origin = stump.spec_node_id().0;
        match growth.next_node {
            NextNodeType::New(node_next) => {
                proof {
                    assert(node_next == node_expected_end);
                }
                let node_id = me.path_network.add_node(node_next);
                proof {
                    assert(node_id.0 == nwpre.nodes_seq().len());
                    assert(me.network().live_node(origin as int));
                    assert(me.network().live_node(node_id.0 as int));
                    assert(!me.network().has_edge(origin as int, node_id.0 as int)) by {
                        if me.network().has_edge(origin as int, node_id.0 as int) {
                            let j = choose|j: int| me.network().edge_live(j)
                                && (#[trigger] me.network().edge_pair(j)).0 == min_i(
                                origin as int, node_id.0 as int) && me.network()
                                .edge_pair(j).1 == max_i(origin as int,
                                node_id.0 as int);
                            assert(nwpre.edge_live(j));
                            assert(nwpre.edge_pair(j) == me.network().edge_pair(j));
                            assert(nwpre.live_node(nwpre.edge_pair(j).1 as int));
                            assert(max_i(origin as int, node_id.0 as int)
                                == node_id.0 as int);
                            assert(false);
                        }
                    }
                }
                let added: bool = me.path_network.add_path(stump.get_node_id(), node_id);
                proof {
                    assert(added);
                    assert(me.network().edges_seq() == nwpre.edges_seq().push(Some((
                        min_usize(origin, node_id.0), max_usize(origin, node_id.0)))));
                }
                let ghost ch = spec_children(self.provider(), *old(rng), node_next,
                    node_id, rules, angle_grow, pstage, stump.spec_params().metrics);
                let ghost k0 = old(rng).draws();
                proof {
                    assert(*rng == *old(rng));
                }
                let straight_metrics: PathMetrics = saturated_extend(
                    stump.get_path_params().metrics);
                let extend_to_straight: bool = me.create_new_candidate(
                    node_next, node_id, rules.path_normal_length, angle_grow,
                    stump.get_path_params().stage, straight_metrics);
                let ghost straight_spec = spec_new_stump(self.provider(),
                    node_next.site, node_id, rules.path_normal_length as int,
                    angle_grow, pstage, spec_sat_extend(stump.spec_params().metrics));
                proof {
                    assert(extend_to_straight == (straight_spec is Some));
                    assert(me.stumps_seq() =~= base + opt_seq(straight_spec));
                }
                let branch_metrics: PathMetrics = saturated_branch(
                    stump.get_path_params().metrics);
                let d0: u64 = rng.gen_unit();
                proof {
                    assert(d0 == old(rng).draw_at(k0));
                    assert(rng.draws() == k0 + 1);
                }
                let clockwise_branch: bool = d0 < rules.branch_rule.branch_density;
                let ghost cw_prop = clockwise_branch || !extend_to_straight;
                let ghost mut cw_seq = Seq::<NodeStump>::empty();
                if clockwise_branch || !extend_to_straight {
                    let d1: u64 = rng.gen_unit();
                    proof {
                        assert(d1 == old(rng).draw_at(k0 + 1));
                        assert(rng.draws() == k0 + 2);
                    }
                    let clockwise_staging: bool = d1
                        < rules.branch_rule.staging_probability;
                    let next_stage: Stage = staged(
                        stump.get_path_params().stage, clockwise_staging);
                    me.create_new_candidate(
                        node_next, node_id, rules.path_normal_length,
                        angle_grow.right_clockwise(), next_stage, branch_metrics);
                    proof {
                        cw_seq = opt_seq(spec_new_stump(self.provider(),
                            node_next.site, node_id, rules.path_normal_length as int,
                            angle_grow.spec_right_clockwise(), spec_staged(pstage,
                            old(rng).draw_at(k0 + 1)
                            < rules.branch_rule.staging_probability),
                            spec_sat_branch(stump.spec_params().metrics)));
                        assert(me.stumps_seq() =~= base + opt_seq(straight_spec)
                            + cw_seq);
                    }
                }
                let ghost k1: nat = if cw_prop { (k0 + 2) as nat } else { (k0 + 1) as nat };
                proof {
                    assert(rng.draws() == k1);
                }
                let d2: u64 = rng.gen_unit();
                proof {
                    assert(d2 == old(rng).draw_at(k1));
                    assert(rng.draws() == k1 + 1);
                }
                let counterclockwise_branch: bool = d2
                    < rules.branch_rule.branch_density;
                let ghost ccw_prop = counterclockwise_branch || !extend_to_straight;
                let ghost mut ccw_seq = Seq::<NodeStump>::empty();
                if counterclockwise_branch || !extend_to_straight {
                    let d3: u64 = rng.gen_unit();
                    proof {
                        assert(d3 == old(rng).draw_at(k1 + 1));
                        assert(rng.draws() == k1 + 2);
                    }
                    let counterclockwise_staging: bool = d3
                        < rules.branch_rule.staging_probability;
                    let next_stage: Stage = staged(
                        stump.get_path_params().stage, counterclockwise_staging);
                    me.create_new_candidate(
                        node_next, node_id, rules.path_normal_length,
                        angle_grow.right_counterclockwise(), next_stage, branch_metrics);
                    proof {
                        ccw_seq = opt_seq(spec_new_stump(self.provider(),
                            node_next.site, node_id, rules.path_normal_length as int,
                            angle_grow.spec_right_counterclockwise(), spec_staged(
                            pstage, old(rng).draw_at(k1 + 1)
                            < rules.branch_rule.staging_probability),
                            spec_sat_branch(stump.spec_params().metrics)));
                    }
                }
                proof {
                    assert(me.stumps_seq() =~= base + opt_seq(straight_spec) + cw_seq
                        + ccw_seq);
                    assert(ch.0 == opt_seq(straight_spec) + cw_seq + ccw_seq);
                    assert(me.stumps_seq() =~= base + ch.0);
                    assert(rng.draws() == old(rng).draws() + ch.1);
                    assert(self.spec_outcome_applied(stump, angle_grow, growth,
                        *old(rng), me, *rng));
                }
            },
            NextNodeType::Existing(node_id) => {
                proof {
                    let kk = choose|k: int| 0 <= k < related_nodes@.len()
                        && (#[trigger] related_nodes@[k]).node_id == node_id
                        && crate::stump::spec_snap_ok(*terrain_provider,
                        node_start.site, site_end,
                        rules.path_extra_length_for_intersection as int,
                        rules.path_slope_elevation_diff_limit, related_nodes@[k],
                        related_paths@) && (forall|k2: int| 0 <= k2
                        < related_nodes@.len() && crate::stump::spec_snap_ok(
                        *terrain_provider, node_start.site, site_end,
                        rules.path_extra_length_for_intersection as int,
                        rules.path_slope_elevation_diff_limit, #[trigger]
                        related_nodes@[k2], related_paths@)
                        ==> !crate::stump::spec_snap_better_at(node_start.site,
                        related_nodes@, k2, k));
                    assert(me.network().live_node(node_id.0 as int));
                    assert(node_id.0 != origin);
                }
                me.path_network.add_path(stump.get_node_id(), node_id);
                proof {
                    assert(self.spec_outcome_applied(stump, angle_grow, growth,
                        *old(rng), me, *rng));
                }
            },
            NextNodeType::Intersect(node_next, encount_path) => {
                proof {
                    assert(node_next.site.wf());
                    let tt = choose|t: int| 0 <= t < related_paths@.len()
                        && (#[trigger] related_paths@[t]).0.node_id == encount_path.0
                        && related_paths@[t].1.node_id == encount_path.1
                        && crate::stump::spec_cross_ok(*terrain_provider,
                        node_start.site, site_end,
                        rules.path_extra_length_for_intersection as int,
                        rules.path_slope_elevation_diff_limit, related_paths@[t]);
                    assert(encount_path.0.0 < encount_path.1.0);
                    assert(me.network().has_edge(encount_path.0.0 as int,
                        encount_path.1.0 as int));
                    assert(me.network().live_node(encount_path.0.0 as int)
                        && me.network().live_node(encount_path.1.0 as int));
                    assert(encount_path.0.0 != origin && encount_path.1.0 != origin);
                }
                let next_node_id = me.path_network.add_node(node_next);
                let ghost nwa = me.network();
                proof {
                    assert(next_node_id.0 == nwpre.nodes_seq().len());
                    assert(nwa.edges_seq() == nwpre.edges_seq());
                    let jw = choose|j: int| nwpre.edge_live(j) && (#[trigger]
                        nwpre.edge_pair(j)).0 == min_i(encount_path.0.0 as int,
                        encount_path.1.0 as int) && nwpre.edge_pair(j).1 == max_i(
                        encount_path.0.0 as int, encount_path.1.0 as int);
                    assert(nwa.edge_live(jw) && nwa.edge_pair(jw) == nwpre.edge_pair(
                        jw));
                    assert(nwa.has_edge(encount_path.0.0 as int,
                        encount_path.1.0 as int));
                }
                let removed: bool = me.path_network.remove_path(
                    encount_path.0, encount_path.1);
                let ghost jslot = choose|j: int| nwa.edge_live(j) && (#[trigger]
                    nwa.edge_pair(j)).0 == min_i(encount_path.0.0 as int,
                    encount_path.1.0 as int) && nwa.edge_pair(j).1 == max_i(
                    encount_path.0.0 as int, encount_path.1.0 as int) && me.network()
                    .edges_seq() == nwa.edges_seq().update(j, None);
                proof {
                    assert(removed);
                    assert(min_i(encount_path.0.0 as int, encount_path.1.0 as int)
                        == encount_path.0.0 as int);
                    assert(nwpre.edge_live(jslot) && nwpre.edge_pair(jslot) == (
                        encount_path.0.0, encount_path.1.0));
                    assert(forall|j2: int| me.network().edge_live(j2)
                        ==> nwpre.edge_live(j2) && #[trigger] me.network().edge_pair(
                        j2) == nwpre.edge_pair(j2));
                    assert(!me.network().has_edge(origin as int,
                        next_node_id.0 as int)) by {
                        if me.network().has_edge(origin as int, next_node_id.0 as int) {
                            let j2 = choose|j2: int| me.network().edge_live(j2)
                                && (#[trigger] me.network().edge_pair(j2)).0 == min_i(
                                origin as int, next_node_id.0 as int) && me.network()
                                .edge_pair(j2).1 == max_i(origin as int,
                                next_node_id.0 as int);
                            assert(nwpre.live_node(nwpre.edge_pair(j2).1 as int));
                            assert(max_i(origin as int, next_node_id.0 as int)
                                == next_node_id.0 as int);
                            assert(false);
                        }
                    }
                    assert(me.network().live_node(origin as int));
                    assert(me.network().live_node(next_node_id.0 as int));
                }
                let ghost nwb = me.network();
                let added1: bool = me.path_network.add_path(
                    stump.get_node_id(), next_node_id);
                proof {
                    assert(added1);
                    assert(me.network().edges_seq() == nwb.edges_seq().push(Some((
                        min_usize(origin, next_node_id.0), max_usize(origin,
                        next_node_id.0)))));
                    assert(!me.network().has_edge(next_node_id.0 as int,
                        encount_path.0.0 as int)) by {
                        if me.network().has_edge(next_node_id.0 as int,
                            encount_path.0.0 as int) {
                            let j2 = choose|j2: int| me.network().edge_live(j2)
                                && (#[trigger] me.network().edge_pair(j2)).0 == min_i(
                                next_node_id.0 as int, encount_path.0.0 as int)
                                && me.network().edge_pair(j2).1 == max_i(
                                next_node_id.0 as int, encount_path.0.0 as int);
                            assert(max_i(next_node_id.0 as int,
                                encount_path.0.0 as int) == next_node_id.0 as int);
                            assert(min_i(next_node_id.0 as int,
                                encount_path.0.0 as int) == encount_path.0.0 as int);
                            if j2 < nwb.edges_seq().len() {
                                assert(nwb.edge_live(j2));
                                assert(nwpre.live_node(nwpre.edge_pair(j2).1 as int));
                                assert(false);
                            } else {
                                assert(me.network().edge_pair(j2) == (min_usize(
                                    origin, next_node_id.0), max_usize(origin,
                                    next_node_id.0)));
                                assert(min_usize(origin, next_node_id.0) == origin);
                                assert(false);
                            }
                        }
                    }
                }
                let ghost nwc = me.network();
                let added2: bool = me.path_network.add_path(
                    next_node_id, encount_path.0);
                proof {
                    assert(added2);
                    assert(me.network().edges_seq() == nwc.edges_seq().push(Some((
                        min_usize(next_node_id.0, encount_path.0.0), max_usize(
                        next_node_id.0, encount_path.0.0)))));
                    assert(!me.network().has_edge(next_node_id.0 as int,
                        encount_path.1.0 as int)) by {
                        if me.network().has_edge(next_node_id.0 as int,
                            encount_path.1.0 as int) {
                            let j2 = choose|j2: int| me.network().edge_live(j2)
                                && (#[trigger] me.network().edge_pair(j2)).0 == min_i(
                                next_node_id.0 as int, encount_path.1.0 as int)
                                && me.network().edge_pair(j2).1 == max_i(
                                next_node_id.0 as int, encount_path.1.0 as int);
                            assert(max_i(next_node_id.0 as int,
                                encount_path.1.0 as int) == next_node_id.0 as int);
                            assert(min_i(next_node_id.0 as int,
                                encount_path.1.0 as int) == encount_path.1.0 as int);
                            if j2 < nwb.edges_seq().len() {
                                assert(nwb.edge_live(j2));
                                assert(nwpre.live_node(nwpre.edge_pair(j2).1 as int));
                                assert(false);
                            } else if j2 == nwb.edges_seq().len() {
                                assert(me.network().edge_pair(j2) == (min_usize(
                                    origin, next_node_id.0), max_usize(origin,
                                    next_node_id.0)));
                                assert(min_usize(origin, next_node_id.0) == origin);
                                assert(false);
                            } else {
                                assert(me.network().edge_pair(j2) == (min_usize(
                                    next_node_id.0, encount_path.0.0), max_usize(
                                    next_node_id.0, encount_path.0.0)));
                                assert(min_usize(next_node_id.0, encount_path.0.0)
                                    == encount_path.0.0);
                                assert(false);
                            }
                        }
                    }
                }
                let ghost nwd = me.network();
                let added3: bool = me.path_network.add_path(
                    next_node_id, encount_path.1);
                proof {
                    assert(added3);
                    assert(me.network().edges_seq() == nwd.edges_seq().push(Some((
                        min_usize(next_node_id.0, encount_path.1.0), max_usize(
                        next_node_id.0, encount_path.1.0)))));
                    assert(nwpre.edge_live(jslot) && nwpre.edge_pair(jslot) == (
                        encount_path.0.0, encount_path.1.0) && me.network().edges_seq()
                        == nwpre.edges_seq().update(jslot, None).push(Some((min_usize(
                        origin, next_node_id.0), max_usize(origin,
                        next_node_id.0)))).push(Some((min_usize(next_node_id.0,
                        encount_path.0.0), max_usize(next_node_id.0,
                        encount_path.0.0)))).push(Some((min_usize(next_node_id.0,
                        encount_path.1.0), max_usize(next_node_id.0,
                        encount_path.1.0)))));
                    assert(self.spec_outcome_applied(stump, angle_grow, growth,
                        *old(rng), me, *rng));
                }
            },
            NextNodeType::Abort => {
                proof {
                    assert(self.spec_outcome_applied(stump, angle_grow, growth,
                        *old(rng), me, *rng));
                }
            },
        }
        proof {
            assert forall|k2: int| 0 <= k2 < me.stumps_seq().len() implies base.contains(
                #[trigger] me.stumps_seq()[k2]) || me.stumps_seq()[
                k2].params.stage.as_int() == pstage.as_int() || me.stumps_seq()[
                k2].params.stage.as_int() == pstage.as_int() + 1 by {
                if k2 < base.len() {
                    assert(me.stumps_seq()[k2] == base[k2]);
                }
            }
            assert(spec_query(self.provider(), node_start.site, stump.spec_angle(),
                pstage, rules.path_normal_length as int, rules.path_direction_rule)
                == Some((site_end, angle_grow)));
            assert(spec_growth_matches(*terrain_provider, node_start.site, site_end,
                node_expected_end, rules.path_extra_length_for_intersection as int,
                rules.path_slope_elevation_diff_limit, related_nodes@, related_paths@,
                growth));
            assert(self.spec_step_post(*terrain_provider, *old(rng), me, *rng));
        }
        me
    }

    /// Runs exactly `n` driver steps: each one a growth step, except
    /// where the network's slot vectors stand at their machine limits,
    /// which no practical run reaches.  With `n` of zero nothing
    /// changes and no random value is drawn.
    pub fn iterate_n_times<TR: TerrainProvider, R: RandomProvider>(
        self,
        n: usize,
        terrain_provider: &TR,
        rng: &mut R,
    ) -> (r: Self)
        requires
            self.wf(),
        ensures
            r.wf(),
            r.provider() == self.provider(),
            forall|k: nat| final(rng).draw_at(k) == old(rng).draw_at(k),
            Self::spec_steps(self, n as nat, *terrain_provider, *old(rng), r,
                *final(rng)),
    {
        let mut me = self;
        let mut i: usize = 0;
        while i < n
            invariant
                me.wf(),
                me.provider() == self.provider(),
                i <= n,
                forall|k: nat| rng.draw_at(k) == old(rng).draw_at(k),
                Self::spec_steps(self, i as nat, *terrain_provider, *old(rng), me,
                    *rng),
            decreases n - i,
        {
            let ghost me_pre = me;
            let ghost rng_pre = *rng;
            if me.path_network.nodes_len() < usize::MAX - 2
                && me.path_network.edges_len() < usize::MAX - 4 {
                me = me.iterate(terrain_provider, rng);
            }
            proof {
                assert(Self::spec_guarded_step(me_pre, *terrain_provider, rng_pre, me,
                    *rng));
                Self::lemma_steps_snoc(self, i as nat, *terrain_provider, *old(rng),
                    me_pre, rng_pre, me, *rng);
            }
            i = i + 1;
        }
        me
    }

    /// Runs growth steps until no candidate is left: the result is a
    /// chain of steps from this builder whose end has an empty heap,
    /// unless the network's slot vectors or a step budget far beyond
    /// any practical run were exhausted first.
    pub fn iterate_as_possible<TR: TerrainProvider, R: RandomProvider>(
        self,
        terrain_provider: &TR,
        rng: &mut R,
    ) -> (r: Self)
        requires
            self.wf(),
        ensures
            r.wf(),
            r.provider() == self.provider(),
            forall|k: nat| final(rng).draw_at(k) == old(rng).draw_at(k),
            exists|n: nat|
                #![auto]
                Self::spec_steps(self, n, *terrain_provider, *old(rng), r, *final(rng))
                    && (r.stumps_seq().len() == 0 || !(r.network().nodes_seq().len()
                    + 2 < usize::MAX && r.network().edges_seq().len() + 4 < usize::MAX)
                    || n == 0xFFFF_FFFF_FFFF_FFFF),
    {
        let mut me = self;
        let mut fuel: u64 = 0xFFFF_FFFF_FFFF_FFFF;
        let ghost mut steps: nat = 0;
        while me.stumps.len() > 0 && fuel > 0
            invariant
                me.wf(),
                me.provider() == self.provider(),
                forall|k: nat| rng.draw_at(k) == old(rng).draw_at(k),
                fuel as nat + steps == 0xFFFF_FFFF_FFFF_FFFF as nat,
                Self::spec_steps(self, steps, *terrain_provider, *old(rng), me, *rng),
            decreases fuel,
        {
            let ghost me_pre = me;
            let ghost rng_pre = *rng;
            if me.path_network.nodes_len() < usize::MAX - 2
                && me.path_network.edges_len() < usize::MAX - 4 {
                me = me.iterate(terrain_provider, rng);
            } else {
                proof {
                    assert(!(me.network().nodes_seq().len() + 2 < usize::MAX
                        && me.network().edges_seq().len() + 4 < usize::MAX));
                }
                return me;
            }
            proof {
                assert(Self::spec_guarded_step(me_pre, *terrain_provider, rng_pre, me,
                    *rng));
                Self::lemma_steps_snoc(self, steps, *terrain_provider, *old(rng),
                    me_pre, rng_pre, me, *rng);
                steps = steps + 1;
            }
            fuel = fuel - 1;
        }
        me
    }

    /// How many stumps are pending.
    pub fn pending_candidates(&self) -> (r: usize)
        ensures
            r as int == self.stumps_seq().len(),
    {
        self.stumps.len()
    }

    /// The pending stumps, in enqueue order.
    pub fn candidates(&self) -> (r: Vec<NodeStump>)
        ensures
            r@ == self.stumps_seq(),
    {
        let mut r: Vec<NodeStump> = Vec::new();
        let mut i: usize = 0;
        while i < self.stumps.len()
            invariant
                i <= self.stumps_seq().len(),
                r@ == self.stumps_seq().subrange(0, i as int),
            decreases self.stumps_seq().len() - i,
        {
            r.push(self.stumps[i]);
            proof {
                assert(r@ =~= self.stumps_seq().subrange(0, i as int + 1));
            }
            i = i + 1;
        }
        proof {
            assert(self.stumps_seq().subrange(0, self.stumps_seq().len() as int)
                =~= self.stumps_seq());
        }
        r
    }
}

/// Origin symmetry: seeding with an angle and seeding with its
/// opposite enqueue the same two stump candidates, merely in swapped
/// order, so the pending work is the same multiset either way.  The
/// seeded node is the same in both runs by the seeding contract, as
/// long as the provider's answer at the origin agrees for the two
/// approach angles (an angle-dependent provider may break the law).
pub proof fn lemma_add_origin_symmetric<TP: TransportRulesProvider>(
    p: TP,
    origin_site: Site,
    origin_id: NodeId,
    len: int,
    a: Angle,
    st: Stage,
    metrics: PathMetrics,
)
    requires
        a.wf(),
    ensures
        (opt_seq(spec_new_stump(p, origin_site, origin_id, len, a, st, metrics))
            + opt_seq(spec_new_stump(p, origin_site, origin_id, len, a.spec_opposite(),
            st, metrics))).to_multiset() == (opt_seq(spec_new_stump(p, origin_site,
            origin_id, len, a.spec_opposite(), st, metrics)) + opt_seq(spec_new_stump(
            p, origin_site, origin_id, len, a.spec_opposite().spec_opposite(), st,
            metrics))).to_multiset(),
{
    broadcast use vstd::multiset::group_multiset_axioms;

    a.lemma_opposite_involution();
    let s1 = opt_seq(spec_new_stump(p, origin_site, origin_id, len, a, st, metrics));
    let s2 = opt_seq(spec_new_stump(p, origin_site, origin_id, len, a.spec_opposite(),
        st, metrics));
    vstd::seq_lib::lemma_multiset_commutative(s1, s2);
    vstd::seq_lib::lemma_multiset_commutative(s2, s1);
    assert(s1.to_multiset().add(s2.to_multiset()) =~= s2.to_multiset().add(
        s1.to_multiset()));
}

/// The counters of a straight child: one more extension since the
/// last branch, the counter held at its ceiling where it would
/// overflow.
pub open spec fn spec_sat_extend(m: PathMetrics) -> PathMetrics {
    if m.extend_count_since_last_branched < u64::MAX {
        PathMetrics {
            branch_count: m.branch_count,
            extend_count_since_last_branched: (m.extend_count_since_last_branched
                + 1) as u64,
        }
    } else {
        m
    }
}

/// One more straight extension since the last branch.
fn saturated_extend(m: PathMetrics) -> (r: PathMetrics)
    ensures
        r == spec_sat_extend(m),
{
    if m.extend_count_since_last_branched < u64::MAX {
        m.extended()
    } else {
        m
    }
}

/// The counters of a branched child: the branch counted, held at its
/// ceiling where it would overflow, and the extension count started
/// over.
pub open spec fn spec_sat_branch(m: PathMetrics) -> PathMetrics {
    PathMetrics {
        branch_count: if m.branch_count < u64::MAX {
            (m.branch_count + 1) as u64
        } else {
            m.branch_count
        },
        extend_count_since_last_branched: 0u64,
    }
}

/// One more branch in the lineage.
fn saturated_branch(m: PathMetrics) -> (r: PathMetrics)
    ensures
        r == spec_sat_branch(m),
{
    if m.branch_count < u64::MAX {
        m.branched()
    } else {
        PathMetrics { branch_count: m.branch_count, extend_count_since_last_branched: 0 }
    }
}

/// The child's stage: one finer where staging was drawn, held where
/// the stage counter would overflow.
pub open spec fn spec_staged(stage: Stage, staging: bool) -> Stage {
    if staging && stage.as_int() < usize::MAX {
        Stage((stage.0 + 1) as usize)
    } else {
        stage
    }
}

/// The child's stage under the drawn staging decision.
fn staged(stage: Stage, staging: bool) -> (r: Stage)
    ensures
        r == spec_staged(stage, staging),
{
    if staging && stage.as_num() < usize::MAX {
        stage.incremented()
    } else {
        stage
    }
}

} // verus!
