//! Sites, line segments and exact integer geometry.
//!
//! Coordinates are fixed-point integers bounded by `MAX_COORD`; the caller
//! picks the unit.  Every geometric comparison is exact: distances are
//! compared through squares, crossings through orientation signs, so no
//! rounding ever influences a decision.  Only a constructed crossing point
//! is rounded (toward zero), and it stays within the bounding box of the
//! crossing segments.

use vstd::prelude::*;
use crate::angle::Angle;
use crate::angle::TRIG_ONE;

verus! {

/// Largest admitted magnitude of a coordinate: the world is the square
/// of this half-width, and sites outside it are impassable.
pub const MAX_COORD: i64 = 100_000_000;
/// Largest admitted length of a single path or search extension.
pub const MAX_LEN: i64 = 100_000_000;

/// A 2D point of the world, with fixed-point integer coordinates.
#[derive(Debug, Clone, Copy, PartialEq, Eq, Hash, Structural)]
pub struct Site {
    pub x: i64,
    pub y: i64,
}

/// Truncating division of `a` by a positive `b`, rounding toward zero.
pub open spec fn spec_div_trunc(a: int, b: int) -> int {
    if a >= 0 {
        a / b
    } else {
        -((-a) / b)
    }
}

impl Site {
    /// A site inside the world.
    pub open spec fn wf(self) -> bool {
        &&& -MAX_COORD <= self.x <= MAX_COORD
        &&& -MAX_COORD <= self.y <= MAX_COORD
    }

    /// A site from x and y coordinates.
    pub fn new(x: i64, y: i64) -> (r: Self)
        ensures
            r == (Site { x, y }),
    {
        Self { x, y }
    }

    /// The squared Euclidean distance between two sites.
    pub open spec fn spec_dist2(a: Site, b: Site) -> int {
        (a.x - b.x) * (a.x - b.x) + (a.y - b.y) * (a.y - b.y)
    }

    /// The squared Euclidean distance to the other site.
    pub fn distance_2(&self, other: &Site) -> (r: i64)
        requires
            self.wf(),
            other.wf(),
        ensures
            r as int == Self::spec_dist2(*self, *other),
            0 <= r <= 80_000_000_000_000_000,
    {
        let dx: i64 = self.x - other.x;
        let dy: i64 = self.y - other.y;
        proof {
            assert(0 <= dx as int * dx as int <= 40_000_000_000_000_000
                && 0 <= dy as int * dy as int <= 40_000_000_000_000_000)
                by (nonlinear_arith)
                requires
                    -200_000_000 <= dx as int <= 200_000_000,
                    -200_000_000 <= dy as int <= 200_000_000,
            {}
        }
        dx * dx + dy * dy
    }

    /// The Euclidean distance to the other site, rounded down.
    pub fn distance(&self, other: &Site) -> (r: i64)
        requires
            self.wf(),
            other.wf(),
        ensures
            r as int * r as int <= Self::spec_dist2(*self, *other),
            Self::spec_dist2(*self, *other) < (r as int + 1) * (r as int + 1),
            0 <= r <= 300_000_000,
    {
        let d2: i64 = self.distance_2(other);
        let r: u64 = isqrt(d2 as u64);
        proof {
            assert(r as int <= 300_000_000) by (nonlinear_arith)
                requires
                    0 <= r as int,
                    r as int * r as int <= 80_000_000_000_000_000,
            {}
        }
        r as i64
    }

    /// What `extend` returns: the site moved by the given angle and
    /// distance, or nothing where the result would leave the world.
    pub open spec fn spec_extend(self, angle: Angle, distance: int) -> Option<Site> {
        let dx = spec_div_trunc(angle.spec_cos() * distance, TRIG_ONE as int);
        let dy = spec_div_trunc(angle.spec_sin() * distance, TRIG_ONE as int);
        let x = self.x + dx;
        let y = self.y + dy;
        if -MAX_COORD <= x <= MAX_COORD && -MAX_COORD <= y <= MAX_COORD {
            Some(Site { x: x as i64, y: y as i64 })
        } else {
            None
        }
    }

    /// The site moved by the angle and distance, if it stays inside the
    /// world.
    pub fn extend(&self, angle: Angle, distance: i64) -> (r: Option<Site>)
        requires
            self.wf(),
            angle.wf(),
            0 <= distance <= MAX_LEN,
        ensures
            r == self.spec_extend(angle, distance as int),
            r matches Some(s) ==> s.wf(),
    {
        let dx: i64 = scale_trig(angle.cos(), distance);
        let dy: i64 = scale_trig(angle.sin(), distance);
        let x: i64 = self.x + dx;
        let y: i64 = self.y + dy;
        if -MAX_COORD <= x && x <= MAX_COORD && -MAX_COORD <= y && y <= MAX_COORD {
            Some(Site { x, y })
        } else {
            None
        }
    }
}

/// The trigonometric factor `t` (scaled by `TRIG_ONE`) applied to a
/// distance, rounded toward zero.
fn scale_trig(t: i64, distance: i64) -> (r: i64)
    requires
        -TRIG_ONE <= t <= TRIG_ONE,
        0 <= distance <= MAX_LEN,
    ensures
        r as int == spec_div_trunc(t as int * distance as int, TRIG_ONE as int),
        -distance <= r <= distance,
{
    let m: u64 = if t >= 0 {
        t as u64
    } else {
        (-t) as u64
    };
    proof {
        assert(m as int * distance as int <= 1_000_000 * 100_000_000)
            by (nonlinear_arith)
            requires
                0 <= m as int <= 1_000_000,
                0 <= distance as int <= 100_000_000,
        {}
    }
    let mag: u64 = m * (distance as u64) / 1_000_000;
    proof {
        assert(m as int * distance as int <= 1_000_000 * distance as int)
            by (nonlinear_arith)
            requires
                0 <= m as int <= 1_000_000,
                0 <= distance as int,
        {}
        vstd::arithmetic::div_mod::lemma_multiply_divide_le(
            m as int * distance as int, 1_000_000, distance as int);
    }
    proof {
        if t < 0 {
            assert(m as int * distance as int == -(t as int * distance as int))
                by (nonlinear_arith)
                requires m as int == -(t as int),
            {}
        }
    }
    if t >= 0 {
        mag as i64
    } else {
        -(mag as i64)
    }
}

/// A straight segment between two sites.
#[derive(Debug, Clone, Copy, PartialEq, Eq, Structural)]
pub struct LineSegment {
    pub from: Site,
    pub to: Site,
}

/// Twice the signed area of the triangle `a`, `b`, `c`: positive where
/// `c` lies to the left of the directed line from `a` to `b`, negative
/// to the right, zero on the line.
pub open spec fn spec_orient(a: Site, b: Site, c: Site) -> int {
    (b.x - a.x) * (c.y - a.y) - (b.y - a.y) * (c.x - a.x)
}

/// The orientation sign helper, exact.
fn orient(a: &Site, b: &Site, c: &Site) -> (r: i64)
    requires
        a.wf(),
        b.wf(),
        c.wf(),
    ensures
        r as int == spec_orient(*a, *b, *c),
        -80_000_000_000_000_000 <= r <= 80_000_000_000_000_000,
{
    let ux: i64 = b.x - a.x;
    let uy: i64 = b.y - a.y;
    let vx: i64 = c.x - a.x;
    let vy: i64 = c.y - a.y;
    proof {
        assert(-40_000_000_000_000_000 <= ux as int * vy as int <= 40_000_000_000_000_000
            && -40_000_000_000_000_000 <= uy as int * vx as int <= 40_000_000_000_000_000)
            by (nonlinear_arith)
            requires
                -200_000_000 <= ux as int <= 200_000_000,
                -200_000_000 <= uy as int <= 200_000_000,
                -200_000_000 <= vx as int <= 200_000_000,
                -200_000_000 <= vy as int <= 200_000_000,
        {}
    }
    ux * vy - uy * vx
}

impl LineSegment {
    /// A segment between two sites.
    pub fn new(from: Site, to: Site) -> (r: Self)
        ensures
            r == (LineSegment { from, to }),
    {
        Self { from, to }
    }

    /// Both endpoints lie inside the world.
    pub open spec fn wf(self) -> bool {
        self.from.wf() && self.to.wf()
    }

    /// Two segments properly cross: they meet in a single point that is
    /// strictly interior to both.  Collinear overlaps and endpoint
    /// touches do not count.
    pub open spec fn spec_proper_cross(s: LineSegment, t: LineSegment) -> bool {
        let d1 = spec_orient(t.from, t.to, s.from);
        let d2 = spec_orient(t.from, t.to, s.to);
        let d3 = spec_orient(s.from, s.to, t.from);
        let d4 = spec_orient(s.from, s.to, t.to);
        ((d1 > 0 && d2 < 0) || (d1 < 0 && d2 > 0)) && ((d3 > 0 && d4 < 0) || (d3 < 0 && d4
            > 0))
    }

    /// Whether this segment properly crosses the other.
    pub fn proper_cross(&self, other: &LineSegment) -> (r: bool)
        requires
            self.wf(),
            other.wf(),
        ensures
            r == Self::spec_proper_cross(*self, *other),
    {
        let d1: i64 = orient(&other.from, &other.to, &self.from);
        let d2: i64 = orient(&other.from, &other.to, &self.to);
        let d3: i64 = orient(&self.from, &self.to, &other.from);
        let d4: i64 = orient(&self.from, &self.to, &other.to);
        ((d1 > 0 && d2 < 0) || (d1 < 0 && d2 > 0)) && ((d3 > 0 && d4 < 0) || (d3 < 0 && d4
            > 0))
    }

    /// What `get_intersection` returns: the crossing point, rounded
    /// toward the start of this segment along each axis, where the
    /// segments properly cross; nothing otherwise.
    pub open spec fn spec_intersection(s: LineSegment, t: LineSegment) -> Option<Site> {
        if Self::spec_proper_cross(s, t) {
            let d1 = spec_orient(t.from, t.to, s.from);
            let d2 = spec_orient(t.from, t.to, s.to);
            let n1 = if d1 >= 0 { d1 } else { -d1 };
            let n2 = if d2 >= 0 { d2 } else { -d2 };
            let den = n1 + n2;
            let dx = spec_div_trunc((s.to.x - s.from.x) * n1, den);
            let dy = spec_div_trunc((s.to.y - s.from.y) * n1, den);
            Some(Site { x: (s.from.x + dx) as i64, y: (s.from.y + dy) as i64 })
        } else {
            None
        }
    }

    /// The crossing point with the other segment, where the two
    /// properly cross.
    pub fn get_intersection(&self, other: &LineSegment) -> (r: Option<Site>)
        requires
            self.wf(),
            other.wf(),
        ensures
            r == Self::spec_intersection(*self, *other),
            r matches Some(p) ==> p.wf(),
            r is Some <==> Self::spec_proper_cross(*self, *other),
    {
        let d1: i64 = orient(&other.from, &other.to, &self.from);
        let d2: i64 = orient(&other.from, &other.to, &self.to);
        let d3: i64 = orient(&self.from, &self.to, &other.from);
        let d4: i64 = orient(&self.from, &self.to, &other.to);
        let cross: bool = ((d1 > 0 && d2 < 0) || (d1 < 0 && d2 > 0)) && ((d3 > 0 && d4
            < 0) || (d3 < 0 && d4 > 0));
        if !cross {
            return None;
        }
        let n1: i64 = if d1 >= 0 { d1 } else { -d1 };
        let n2: i64 = if d2 >= 0 { d2 } else { -d2 };
        let den: u64 = (n1 as u64) + (n2 as u64);
        let dx: i64 = scale_ratio(self.to.x - self.from.x, n1 as u64, den);
        let dy: i64 = scale_ratio(self.to.y - self.from.y, n1 as u64, den);
        let x: i64 = self.from.x + dx;
        let y: i64 = self.from.y + dy;
        proof {
            assert(Site { x, y }.wf());
        }
        Some(Site { x, y })
    }

    /// The distance from the site `p` to this segment is strictly less
    /// than `rad`, compared exactly through squares.
    pub open spec fn spec_dist_lt(s: LineSegment, p: Site, rad: int) -> bool {
        let ab_ap = (s.to.x - s.from.x) * (p.x - s.from.x) + (s.to.y - s.from.y) * (p.y
            - s.from.y);
        let ab_bp = (s.to.x - s.from.x) * (p.x - s.to.x) + (s.to.y - s.from.y) * (p.y
            - s.to.y);
        if ab_ap <= 0 {
            Site::spec_dist2(s.from, p) < rad * rad
        } else if ab_bp >= 0 {
            Site::spec_dist2(s.to, p) < rad * rad
        } else {
            let c = spec_orient(s.from, s.to, p);
            c * c < rad * rad * Site::spec_dist2(s.from, s.to)
        }
    }

    /// Whether the site `p` lies strictly within distance `rad` of this
    /// segment.
    pub fn get_distance_lt(&self, p: &Site, rad: i64) -> (r: bool)
        requires
            self.wf(),
            p.wf(),
            0 <= rad <= MAX_LEN,
        ensures
            r == Self::spec_dist_lt(*self, *p, rad as int),
    {
        let abx: i64 = self.to.x - self.from.x;
        let aby: i64 = self.to.y - self.from.y;
        proof {
            assert(forall|u: int, v: int|
                -200_000_000 <= u <= 200_000_000 && -200_000_000 <= v <= 200_000_000
                ==> -40_000_000_000_000_000 <= #[trigger] (u * v)
                    <= 40_000_000_000_000_000) by (nonlinear_arith) {}
        }
        let ab_ap: i64 = abx * (p.x - self.from.x) + aby * (p.y - self.from.y);
        proof {
            assert(0 <= rad as int * rad as int <= 10_000_000_000_000_000)
                by (nonlinear_arith)
                requires 0 <= rad as int <= 100_000_000,
            {}
        }
        let rad2: i64 = rad * rad;
        if ab_ap <= 0 {
            let d2: i64 = self.from.distance_2(p);
            return d2 < rad2;
        }
        let ab_bp: i64 = abx * (p.x - self.to.x) + aby * (p.y - self.to.y);
        if ab_bp >= 0 {
            let d2: i64 = self.to.distance_2(p);
            return d2 < rad2;
        }
        let c: i64 = orient(&self.from, &self.to, p);
        let len2: i64 = self.from.distance_2(&self.to);
        proof {
            assert(0 <= c as int * c as int <= 0x4000_0000_0000_0000_0000_0000_0000_0000
                && 0 <= rad2 as int * len2 as int
                    <= 0x4000_0000_0000_0000_0000_0000_0000_0000)
                by (nonlinear_arith)
                requires
                    -80_000_000_000_000_000 <= c as int <= 80_000_000_000_000_000,
                    0 <= rad2 as int <= 10_000_000_000_000_000,
                    0 <= len2 as int <= 80_000_000_000_000_000,
            {}
        }
        let c2: i128 = (c as i128) * (c as i128);
        let bound: i128 = (rad2 as i128) * (len2 as i128);
        c2 < bound
    }
}

/// `d` scaled by the ratio of `n` to `den`, rounded toward zero.
fn scale_ratio(d: i64, n: u64, den: u64) -> (r: i64)
    requires
        -200_000_000 <= d <= 200_000_000,
        0 < n <= den,
        den <= 200_000_000_000_000_000,
    ensures
        r as int == spec_div_trunc(d as int * n as int, den as int),
        (if d >= 0 { 0 <= r as int <= d as int } else { d as int <= r as int <= 0 }),
{
    let m: u64 = if d >= 0 {
        d as u64
    } else {
        (-d) as u64
    };
    proof {
        assert(m as int * n as int <= 200_000_000 * 200_000_000_000_000_000)
            by (nonlinear_arith)
            requires
                0 <= m as int <= 200_000_000,
                0 <= n as int <= 200_000_000_000_000_000,
        {}
    }
    let prod: u128 = (m as u128) * (n as u128);
    let mag: u128 = prod / (den as u128);
    proof {
        assert(m as int * n as int <= den as int * m as int) by (nonlinear_arith)
            requires
                0 <= m as int,
                0 < n as int <= den as int,
        {}
        vstd::arithmetic::div_mod::lemma_multiply_divide_le(
            m as int * n as int, den as int, m as int);
        if d < 0 {
            assert(m as int * n as int == -(d as int * n as int)) by (nonlinear_arith)
                requires m as int == -(d as int),
            {}
        }
    }
    if d >= 0 {
        mag as i64
    } else {
        -(mag as i64)
    }
}

/// The integer square root of `n`, rounded down.
pub fn isqrt(n: u64) -> (r: u64)
    requires
        n <= 0x4000_0000_0000_0000,
    ensures
        r as int * r as int <= n as int,
        (n as int) < (r as int + 1) * (r as int + 1),
{
    let mut lo: u64 = 0;
    let mut hi: u64 = 0x8000_0000;
    proof {
        assert((0x8000_0000 as int + 1) * (0x8000_0000 as int + 1)
            > 0x4000_0000_0000_0000) by (nonlinear_arith) {}
    }
    while lo < hi
        invariant
            lo <= hi <= 0x8000_0000,
            lo as int * lo as int <= n as int,
            (n as int) < (hi as int + 1) * (hi as int + 1),
        decreases hi - lo,
    {
        let mid: u64 = lo + (hi - lo + 1) / 2;
        proof {
            assert(mid as int * mid as int <= 0x8000_0000 * 0x8000_0000)
                by (nonlinear_arith)
                requires 0 <= mid as int <= 0x8000_0000,
            {}
        }
        if mid * mid <= n {
            lo = mid;
        } else {
            proof {
                assert(mid as int >= 1);
                assert((mid as int - 1) + 1 == mid as int);
            }
            hi = mid - 1;
        }
    }
    lo
}

} // verus!
