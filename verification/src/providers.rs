//! Oracles the growth engine consults: rules, terrain and randomness.
//!
//! Each trait carries a specification function beside its executable
//! method, so that a caller can reason about what the oracle answered:
//! an implementor promises that the method returns exactly what the
//! specification function says.  That makes every growth run a pure
//! function of the oracle specifications, which is what the determinism
//! law rests on.

use vstd::prelude::*;
use crate::angle::Angle;
use crate::geom::Site;
use crate::rules::MAX_ELEV;
use crate::rules::TransportRule;
use crate::rules::UNIT;
use crate::stage::Stage;

verus! {

/// Provider of transport rules.  Rules for constructing a path are
/// associated with the queried site, stage and approach angle; `None`
/// means the site is impassable for that query.
pub trait TransportRulesProvider {
    /// What `get_rules` answers for each query.
    spec fn rule_spec(&self, site: Site, stage: Stage, angle: Angle) -> Option<
        TransportRule>;

    /// The rules for extending a path to `site` at `stage` arriving
    /// with `angle`, or `None` where that is impassable.
    fn get_rules(&self, site: &Site, stage: Stage, angle: Angle) -> (r: Option<
        TransportRule>)
        ensures
            r == self.rule_spec(*site, stage, angle),
            r matches Some(t) ==> t.wf(),
    ;
}

/// Provider of terrain elevation.  `None` denotes an undefined domain;
/// the growth classifier treats it as a slope-check failure.
pub trait TerrainProvider {
    /// What `get_elevation` answers for each site.
    spec fn elevation_spec(&self, site: Site) -> Option<i64>;

    /// The elevation at `site`, if the terrain is defined there.
    fn get_elevation(&self, site: &Site) -> (r: Option<i64>)
        requires
            site.wf(),
        ensures
            r == self.elevation_spec(*site),
            r matches Some(e) ==> -MAX_ELEV <= e <= MAX_ELEV,
    ;
}

/// Provider of uniform random fractions of `UNIT`.  The stream of draws
/// is fixed up front in the specification, so identical providers drive
/// identical runs.
pub trait RandomProvider {
    /// How many draws were consumed so far.
    spec fn draws(&self) -> nat;

    /// The value of the `k`-th draw of the stream.
    spec fn draw_at(&self, k: nat) -> u64;

    /// The next random value, uniform in `[0, UNIT)`.
    fn gen_unit(&mut self) -> (r: u64)
        ensures
            r == old(self).draw_at(old(self).draws()),
            r < UNIT,
            final(self).draws() == old(self).draws() + 1,
            forall|k: nat| final(self).draw_at(k) == old(self).draw_at(k),
    ;
}

/// Provider that returns the same rules for every query.
pub struct MockSameRuleProvider {
    rule: TransportRule,
}

impl MockSameRuleProvider {
    #[verifier::type_invariant]
    spec fn inv(self) -> bool {
        self.rule.wf()
    }

    /// A provider answering `rule` everywhere.
    pub fn new(rule: TransportRule) -> (r: Self)
        requires
            rule.wf(),
        ensures
            forall|site: Site, stage: Stage, angle: Angle|
                r.rule_spec(site, stage, angle) == Some(rule),
    {
        Self { rule }
    }
}

impl TransportRulesProvider for MockSameRuleProvider {
    closed spec fn rule_spec(&self, site: Site, stage: Stage, angle: Angle) -> Option<
        TransportRule> {
        Some(self.rule)
    }

    fn get_rules(&self, site: &Site, stage: Stage, angle: Angle) -> (r: Option<
        TransportRule>) {
        proof {
            use_type_invariant(self);
        }
        Some(self.rule)
    }
}

/// Terrain provider of one flat surface.
pub struct MockSurfaceTerrain {
    elevation: i64,
}

impl MockSurfaceTerrain {
    #[verifier::type_invariant]
    spec fn inv(self) -> bool {
        -MAX_ELEV <= self.elevation <= MAX_ELEV
    }

    /// A flat terrain of the given elevation.
    pub fn new(elevation: i64) -> (r: Self)
        requires
            -MAX_ELEV <= elevation <= MAX_ELEV,
        ensures
            forall|site: Site| r.elevation_spec(site) == Some(elevation),
    {
        Self { elevation }
    }
}

impl TerrainProvider for MockSurfaceTerrain {
    closed spec fn elevation_spec(&self, site: Site) -> Option<i64> {
        Some(self.elevation)
    }

    fn get_elevation(&self, site: &Site) -> (r: Option<i64>) {
        proof {
            use_type_invariant(self);
        }
        Some(self.elevation)
    }
}

/// The spot of `spots` nearest to `p`, the first of equally near ones.
pub open spec fn spec_nearest_spot(spots: Seq<(Site, i64)>, p: Site) -> Option<(Site, i64)>
    decreases spots.len(),
{
    if spots.len() == 0 {
        None
    } else {
        let last = spots[spots.len() - 1];
        match spec_nearest_spot(spots.drop_last(), p) {
            None => Some(last),
            Some(best) => if Site::spec_dist2(last.0, p) < Site::spec_dist2(best.0, p) {
                Some(last)
            } else {
                Some(best)
            },
        }
    }
}

/// Terrain provider that answers the elevation of the nearest of a set
/// of predefined spots.
pub struct MockVoronoiTerrain {
    spots: Vec<(Site, i64)>,
}

impl MockVoronoiTerrain {
    #[verifier::type_invariant]
    spec fn inv(self) -> bool {
        forall|i: int| 0 <= i < self.spots@.len() ==> (#[trigger] self.spots@[i]).0.wf()
            && -MAX_ELEV <= self.spots@[i].1 <= MAX_ELEV
    }

    /// A terrain from spots with predefined elevations.
    pub fn new(spots: Vec<(Site, i64)>) -> (r: Self)
        requires
            forall|i: int| 0 <= i < spots@.len() ==> (#[trigger] spots@[i]).0.wf()
                && -MAX_ELEV <= spots@[i].1 <= MAX_ELEV,
        ensures
            forall|site: Site| r.elevation_spec(site) == match spec_nearest_spot(
                spots@, site) {
                None => Option::<i64>::None,
                Some(best) => Some(best.1),
            },
    {
        Self { spots }
    }
}

impl TerrainProvider for MockVoronoiTerrain {
    closed spec fn elevation_spec(&self, site: Site) -> Option<i64> {
        match spec_nearest_spot(self.spots@, site) {
            None => None,
            Some(best) => Some(best.1),
        }
    }

    fn get_elevation(&self, site: &Site) -> (r: Option<i64>) {
        proof {
            use_type_invariant(self);
        }
        let mut best: Option<(Site, i64)> = None;
        let mut i: usize = 0;
        while i < self.spots.len()
            invariant
                i <= self.spots@.len(),
                site.wf(),
                forall|j: int| 0 <= j < self.spots@.len() ==> (#[trigger] self
                    .spots@[j]).0.wf() && -MAX_ELEV <= self.spots@[j].1 <= MAX_ELEV,
                best == spec_nearest_spot(self.spots@.subrange(0, i as int), *site),
                best matches Some(b) ==> b.0.wf() && -MAX_ELEV <= b.1 <= MAX_ELEV,
            decreases self.spots@.len() - i,
        {
            let spot = self.spots[i];
            let take: bool = match &best {
                None => true,
                Some(b) => spot.0.distance_2(site) < b.0.distance_2(site),
            };
            proof {
                let pre = self.spots@.subrange(0, i as int);
                let cur = self.spots@.subrange(0, i as int + 1);
                assert(cur.drop_last() =~= pre);
                assert(cur[cur.len() - 1] == self.spots@[i as int]);
            }
            if take {
                best = Some(spot);
            }
            i = i + 1;
        }
        proof {
            assert(self.spots@.subrange(0, self.spots@.len() as int) =~= self.spots@);
        }
        match best {
            None => None,
            Some(b) => Some(b.1),
        }
    }
}

/// A deterministic linear congruential random provider.
pub struct LcgRandom {
    state: u64,
    seed: Ghost<u64>,
    steps: Ghost<nat>,
}

/// One step of the linear congruential generator.
pub open spec fn spec_lcg_next(s: u64) -> u64 {
    (((s as int) * 6_364_136_223_846_793_005 + 1_442_695_040_888_963_407) % 0x1_0000_0000_0000_0000) as u64
}

/// The generator state after `k` steps from `seed`.
pub open spec fn spec_lcg_state(seed: u64, k: nat) -> u64
    decreases k,
{
    if k == 0 {
        seed
    } else {
        spec_lcg_next(spec_lcg_state(seed, (k - 1) as nat))
    }
}

impl LcgRandom {
    #[verifier::type_invariant]
    spec fn inv(self) -> bool {
        self.state == spec_lcg_state(self.seed@, self.steps@)
    }

    /// A generator starting from the given seed.
    pub fn new(seed: u64) -> (r: Self)
        ensures
            r.draws() == 0,
            forall|k: nat| r.draw_at(k) == spec_lcg_state(seed, k + 1) % UNIT,
    {
        Self { state: seed, seed: Ghost(seed), steps: Ghost(0) }
    }
}

impl RandomProvider for LcgRandom {
    closed spec fn draws(&self) -> nat {
        self.steps@
    }

    closed spec fn draw_at(&self, k: nat) -> u64 {
        spec_lcg_state(self.seed@, k + 1) % UNIT
    }

    #[verifier::rlimit(50)]
    fn gen_unit(&mut self) -> (r: u64) {
        proof {
            use_type_invariant(&*self);
            assert(0 <= (self.state as int) * 6_364_136_223_846_793_005
                <= 0xFFFF_FFFF_FFFF_FFFF * 6_364_136_223_846_793_005)
                by (nonlinear_arith)
                requires 0 <= self.state as int <= 0xFFFF_FFFF_FFFF_FFFF,
            {}
        }
        let wide: u128 = (self.state as u128) * 6_364_136_223_846_793_005u128
            + 1_442_695_040_888_963_407u128;
        let next: u64 = (wide % 0x1_0000_0000_0000_0000u128) as u64;
        proof {
            assert(next == spec_lcg_next(self.state));
        }
        let ghost seed = self.seed@;
        let ghost steps = self.steps@;
        *self = LcgRandom { state: next, seed: Ghost(seed), steps: Ghost(steps + 1) };
        next % UNIT
    }
}

} // verus!
