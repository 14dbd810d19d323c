//! Per-site construction properties, as concrete rule providers consume
//! them.
//!
//! These value objects describe one queried site: the priority of
//! building toward it, its elevation and population density, and how a
//! path reaching it may curve.  The growth engine itself consumes full
//! rule snapshots; these properties are the raw material concrete
//! providers derive them from.

use vstd::prelude::*;
use crate::geom::Site;

verus! {

/// Properties of a site for constructing a new path.
#[derive(Debug, Clone, Copy, PartialEq, Eq, Structural)]
pub struct TransportProperty {
    /// Priority to construct a path to this site.
    pub path_priority: i64,
    /// Elevation at the site.
    pub elevation: i64,
    /// Population density at the site, as a fraction of `UNIT`.
    pub population_density: u64,
    /// Length of the path to construct.
    pub path_length: i64,
    /// Probability of branching, as a fraction of `UNIT`.
    pub branch_probability: u64,
}

/// Properties of curves.  Where a provider returns none, the path is
/// always extended straight.
#[derive(Debug, Clone, Copy, PartialEq, Eq, Structural)]
pub struct CurveProperty {
    /// Maximum turn of a curve, in thousandths of a degree.
    pub max_angle: i64,
    /// Number of direction candidates compared for the next site.
    pub comparison_step: usize,
}

impl Default for CurveProperty {
    /// A straight-only curve rule.
    fn default() -> (r: Self)
        ensures
            r == (CurveProperty { max_angle: 0i64, comparison_step: 1usize }),
    {
        Self { max_angle: 0, comparison_step: 1 }
    }
}

/// Provider of per-site construction properties.
pub trait TransportPropertyProvider {
    /// What `get_property` answers for each site.
    spec fn property_spec(&self, site: Site) -> Option<TransportProperty>;

    /// The property of `site`, or `None` where no path may be built.
    fn get_property(&self, site: &Site) -> (r: Option<TransportProperty>)
        ensures
            r == self.property_spec(*site),
    ;
}

} // verus!
