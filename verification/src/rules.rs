//! Rule snapshots consumed from rule providers, and the exact slope check.
//!
//! Probabilities are fixed-point fractions of `UNIT`; slope limits are
//! counted in `SLOPE_SCALE`-ths of elevation per unit of length.  The
//! slope check compares squares, so it is exact although distances are
//! irrational.

use vstd::prelude::*;
use crate::angle::HALF_TURN;
use crate::geom::MAX_LEN;

verus! {

/// Largest admitted magnitude of an elevation sample.
pub const MAX_ELEV: i64 = 100_000_000;
/// Fixed-point scale of slope limits: a limit of `SLOPE_SCALE` allows one
/// unit of elevation per unit of length.
pub const SLOPE_SCALE: i64 = 1000;
/// Largest admitted slope limit.
pub const MAX_SLOPE: i64 = 1_000_000;
/// Fixed-point scale of probabilities: `UNIT` stands for 1.
pub const UNIT: u64 = 1_000_000_000;

/// The elevation difference a path of a given length may climb.
#[derive(Debug, Clone, Copy, PartialEq, Eq, Structural)]
pub enum GrowthRuleElevationDiff {
    /// Any elevation difference is allowed.
    AlwaysAllow,
    /// No elevation difference is allowed, not even zero.
    AlwaysDeny,
    /// The allowed difference grows linearly with the path length, by
    /// the held amount of `SLOPE_SCALE`-ths of elevation per unit.
    Linear(i64),
}

impl GrowthRuleElevationDiff {
    /// The held limit lies in the admitted range.
    pub open spec fn wf(self) -> bool {
        match self {
            GrowthRuleElevationDiff::Linear(l) => 0 <= l <= MAX_SLOPE,
            _ => true,
        }
    }

    /// The elevation difference allowed over a path of the given
    /// length, rounded down: `None` stands for no bound at all, and a
    /// negative bound for a rule that denies every path.
    pub fn value(&self, path_length: i64) -> (r: Option<i64>)
        requires
            self.wf(),
            0 <= path_length <= MAX_LEN,
        ensures
            r == match *self {
                GrowthRuleElevationDiff::AlwaysAllow => Option::<i64>::None,
                GrowthRuleElevationDiff::AlwaysDeny => Some(-1i64),
                GrowthRuleElevationDiff::Linear(l) => Some(
                    ((l * path_length as int) / (SLOPE_SCALE as int)) as i64),
            },
    {
        match self {
            GrowthRuleElevationDiff::AlwaysAllow => None,
            GrowthRuleElevationDiff::AlwaysDeny => Some(-1),
            GrowthRuleElevationDiff::Linear(l) => {
                proof {
                    assert(0 <= (*l as int) * (path_length as int)
                        <= 1_000_000 * 100_000_000) by (nonlinear_arith)
                        requires
                            0 <= *l as int <= 1_000_000,
                            0 <= path_length as int <= 100_000_000,
                    {}
                }
                let p: u64 = ((*l as u64) * (path_length as u64)) / (SLOPE_SCALE as u64);
                Some(p as i64)
            },
        }
    }
}

/// The slope between two elevation samples over a squared distance is
/// within the limit: `|elevation difference| <= limit * distance`,
/// compared exactly through squares.
pub open spec fn spec_check_slope(
    elevation_start: int,
    elevation_end: int,
    dist2: int,
    limit: GrowthRuleElevationDiff,
) -> bool {
    match limit {
        GrowthRuleElevationDiff::AlwaysAllow => true,
        GrowthRuleElevationDiff::AlwaysDeny => false,
        GrowthRuleElevationDiff::Linear(l) => {
            let de = (elevation_end - elevation_start) * (SLOPE_SCALE as int);
            de * de <= (l as int) * (l as int) * dist2
        },
    }
}

/// Whether a path from one elevation to another over the given squared
/// length stays within the slope limit.
pub fn check_slope(
    elevation_start: i64,
    elevation_end: i64,
    dist2: i64,
    limit: &GrowthRuleElevationDiff,
) -> (r: bool)
    requires
        -MAX_ELEV <= elevation_start <= MAX_ELEV,
        -MAX_ELEV <= elevation_end <= MAX_ELEV,
        0 <= dist2 <= 80_000_000_000_000_000,
        limit.wf(),
    ensures
        r == spec_check_slope(
            elevation_start as int, elevation_end as int, dist2 as int, *limit),
{
    match limit {
        GrowthRuleElevationDiff::AlwaysAllow => true,
        GrowthRuleElevationDiff::AlwaysDeny => false,
        GrowthRuleElevationDiff::Linear(l) => {
            let de: i64 = (elevation_end - elevation_start) * SLOPE_SCALE;
            proof {
                assert(0 <= de as int * de as int
                    <= 0x4000_0000_0000_0000_0000_0000_0000_0000
                    && 0 <= (*l as int) * (*l as int) <= 1_000_000_000_000)
                    by (nonlinear_arith)
                    requires
                        -200_000_000_000 <= de as int <= 200_000_000_000,
                        0 <= *l as int <= 1_000_000,
                {}
                assert((*l as int) * (*l as int) * (dist2 as int)
                    <= 0x4000_0000_0000_0000_0000_0000_0000_0000)
                    by (nonlinear_arith)
                    requires
                        0 <= (*l as int) * (*l as int) <= 1_000_000_000_000,
                        0 <= dist2 as int <= 80_000_000_000_000_000,
                {}
            }
            let de2: i128 = (de as i128) * (de as i128);
            let l2: i128 = (*l as i128) * (*l as i128);
            let bound: i128 = l2 * (dist2 as i128);
            de2 <= bound
        },
    }
}

/// Rules to create branches: probabilities as fractions of `UNIT`.
/// With `Default` values the path never creates a branch.
#[derive(Debug, Clone, Copy, PartialEq, Eq, Structural)]
pub struct BranchRules {
    /// Probability of branching, as a fraction of `UNIT`.
    pub branch_density: u64,
    /// Probability that a branch is staged one level finer.
    pub staging_probability: u64,
}

impl Default for BranchRules {
    /// Rules that never branch.
    fn default() -> (r: Self)
        ensures
            r == (BranchRules { branch_density: 0u64, staging_probability: 0u64 }),
    {
        Self { branch_density: 0, staging_probability: 0 }
    }
}

/// Rules to create bridges.  With `Default` values the path never
/// creates a bridge.  The growth engine carries these rules with every
/// candidate but never originates a bridge itself: every extension has
/// exactly the normal path length, so the over-length condition of a
/// bridge cannot arise; bridge ends stand only on externally built
/// nodes, whose edges the engine respects as uncrossable.
#[derive(Debug, Clone, Copy, PartialEq, Eq, Structural)]
pub struct BridgeRules {
    /// Maximum length of bridges.
    pub max_bridge_length: i64,
    /// Number of check steps to create a bridge.
    pub check_step: usize,
}

impl Default for BridgeRules {
    /// Rules that never bridge.
    fn default() -> (r: Self)
        ensures
            r == (BridgeRules { max_bridge_length: 0i64, check_step: 0usize }),
    {
        Self { max_bridge_length: 0, check_step: 0 }
    }
}

/// Rules to determine the direction of a path.  With `Default` values
/// the path is always extended straight ahead.
#[derive(Debug, Clone, Copy, PartialEq, Eq, Structural)]
pub struct PathDirectionRules {
    /// Maximum turn of a curve, in thousandths of a degree.
    pub max_angle: i64,
    /// Number of direction candidates compared for the next site; an
    /// even count is defensively rounded up to the next odd one.
    pub comparison_step: usize,
}

impl Default for PathDirectionRules {
    /// Rules that always extend straight.
    fn default() -> (r: Self)
        ensures
            r == (PathDirectionRules { max_angle: 0i64, comparison_step: 1usize }),
    {
        Self { max_angle: 0, comparison_step: 1 }
    }
}

impl PathDirectionRules {
    /// The fields lie in the admitted ranges.
    pub open spec fn wf(self) -> bool {
        &&& 0 <= self.max_angle <= HALF_TURN
        &&& self.comparison_step <= 100_000
    }
}

/// The full rule snapshot a provider hands out for one site, stage and
/// angle.
#[derive(Debug, Clone, Copy, PartialEq, Eq, Structural)]
pub struct TransportRule {
    /// Normal length of a path extension.
    pub path_normal_length: i64,
    /// Extra length used to search for nodes and crossings near the
    /// proposed extension.
    pub path_extra_length_for_intersection: i64,
    /// Priority of extending a path to the queried site: the direction
    /// search and the candidate heap rank by it.
    pub path_priority: i64,
    /// Largest slope a path may climb.
    pub path_slope_elevation_diff_limit: GrowthRuleElevationDiff,
    /// Smallest elevation difference two paths need to pass one above
    /// the other without meeting.
    pub path_grade_separation_elevation_diff_required: GrowthRuleElevationDiff,
    /// Rules to create branches.
    pub branch_rule: BranchRules,
    /// Rules to determine the direction of the path.
    pub path_direction_rule: PathDirectionRules,
    /// Rules to create bridges.
    pub bridge_rule: BridgeRules,
}

impl TransportRule {
    /// The fields lie in the admitted ranges.
    pub open spec fn wf(self) -> bool {
        &&& 0 <= self.path_normal_length <= MAX_LEN
        &&& 0 <= self.path_extra_length_for_intersection <= MAX_LEN
        &&& self.path_slope_elevation_diff_limit.wf()
        &&& self.path_grade_separation_elevation_diff_required.wf()
        &&& self.branch_rule.branch_density <= UNIT
        &&& self.branch_rule.staging_probability <= UNIT
        &&& self.path_direction_rule.wf()
        &&& 0 <= self.bridge_rule.max_bridge_length <= MAX_LEN
    }

    /// The rule with the normal path length replaced.
    pub fn path_normal_length(self, path_normal_length: i64) -> (r: Self)
        ensures
            r == (TransportRule { path_normal_length, ..self }),
    {
        Self { path_normal_length, ..self }
    }

    /// The rule with the intersection search length replaced.
    pub fn path_extra_length_for_intersection(
        self,
        path_extra_length_for_intersection: i64,
    ) -> (r: Self)
        ensures
            r == (TransportRule { path_extra_length_for_intersection, ..self }),
    {
        Self { path_extra_length_for_intersection, ..self }
    }

    /// The rule with the priority replaced.
    pub fn path_priority(self, path_priority: i64) -> (r: Self)
        ensures
            r == (TransportRule { path_priority, ..self }),
    {
        Self { path_priority, ..self }
    }

    /// The rule with the slope limit replaced.
    pub fn path_slope_elevation_diff_limit(
        self,
        path_slope_elevation_diff_limit: GrowthRuleElevationDiff,
    ) -> (r: Self)
        ensures
            r == (TransportRule { path_slope_elevation_diff_limit, ..self }),
    {
        Self { path_slope_elevation_diff_limit, ..self }
    }

    /// The rule with the grade separation requirement replaced.
    pub fn path_grade_separation_elevation_diff_required(
        self,
        path_grade_separation_elevation_diff_required: GrowthRuleElevationDiff,
    ) -> (r: Self)
        ensures
            r == (TransportRule { path_grade_separation_elevation_diff_required, ..self }),
    {
        Self { path_grade_separation_elevation_diff_required, ..self }
    }

    /// The rule with the branch rules replaced.
    pub fn branch_rule(self, branch_rule: BranchRules) -> (r: Self)
        ensures
            r == (TransportRule { branch_rule, ..self }),
    {
        Self { branch_rule, ..self }
    }

    /// The rule with the direction rules replaced.
    pub fn path_direction_rule(self, path_direction_rule: PathDirectionRules) -> (r: Self)
        ensures
            r == (TransportRule { path_direction_rule, ..self }),
    {
        Self { path_direction_rule, ..self }
    }

    /// The rule with the bridge rules replaced.
    pub fn bridge_rule(self, bridge_rule: BridgeRules) -> (r: Self)
        ensures
            r == (TransportRule { bridge_rule, ..self }),
    {
        Self { bridge_rule, ..self }
    }
}

impl Default for TransportRule {
    /// Zero lengths, free slope, no grade separation, no branches, no
    /// curves, no bridges.
    fn default() -> (r: Self)
        ensures
            r.path_normal_length == 0,
            r.path_extra_length_for_intersection == 0,
            r.path_priority == 0,
            r.path_slope_elevation_diff_limit == GrowthRuleElevationDiff::AlwaysAllow,
            r.path_grade_separation_elevation_diff_required
                == GrowthRuleElevationDiff::AlwaysDeny,
            r.branch_rule == (BranchRules { branch_density: 0u64, staging_probability: 0u64 }),
            r.path_direction_rule == (PathDirectionRules { max_angle: 0i64, comparison_step: 1usize }),
            r.bridge_rule == (BridgeRules { max_bridge_length: 0i64, check_step: 0usize }),
            r.wf(),
    {
        Self {
            path_normal_length: 0,
            path_extra_length_for_intersection: 0,
            path_priority: 0,
            path_slope_elevation_diff_limit: GrowthRuleElevationDiff::AlwaysAllow,
            path_grade_separation_elevation_diff_required:
                GrowthRuleElevationDiff::AlwaysDeny,
            branch_rule: BranchRules { branch_density: 0, staging_probability: 0 },
            path_direction_rule: PathDirectionRules { max_angle: 0, comparison_step: 1 },
            bridge_rule: BridgeRules { max_bridge_length: 0, check_step: 0 },
        }
    }
}

/// Per-lineage counters handed from a popped candidate to its children.
#[derive(Debug, Clone, Copy, PartialEq, Eq, Structural)]
pub struct PathMetrics {
    /// How many ancestors were created as branches.
    pub branch_count: u64,
    /// How many straight extensions happened since the last branch.
    pub extend_count_since_last_branched: u64,
}

impl PathMetrics {
    /// The counters of a fresh origin.
    pub fn new() -> (r: Self)
        ensures
            r == (PathMetrics { branch_count: 0u64, extend_count_since_last_branched: 0u64 }),
    {
        Self { branch_count: 0, extend_count_since_last_branched: 0 }
    }

    /// The counters of a straight child: one more extension since the
    /// last branch.
    pub fn extended(self) -> (r: Self)
        requires
            self.extend_count_since_last_branched < u64::MAX,
        ensures
            r.branch_count == self.branch_count,
            r.extend_count_since_last_branched
                == self.extend_count_since_last_branched + 1,
    {
        Self {
            branch_count: self.branch_count,
            extend_count_since_last_branched: self.extend_count_since_last_branched + 1,
        }
    }

    /// The counters of a branched child: the branch is counted and the
    /// extension count starts over.
    pub fn branched(self) -> (r: Self)
        requires
            self.branch_count < u64::MAX,
        ensures
            r.branch_count == self.branch_count + 1,
            r.extend_count_since_last_branched == 0,
    {
        Self {
            branch_count: self.branch_count + 1,
            extend_count_since_last_branched: 0,
        }
    }
}

/// Factors of a path which are referenced when the path is created.
#[derive(Debug, Clone, Copy, PartialEq, Eq, Structural)]
pub struct PathConstructionFactors {
    /// Counters of the lineage that created the path.
    pub metrics: PathMetrics,
    /// Rule snapshot under which the path was created.
    pub rule: TransportRule,
}

} // verus!
