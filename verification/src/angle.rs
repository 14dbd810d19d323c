//! Angles in thousandths of a degree, with exact fixed-point trigonometry.
//!
//! An angle is kept normalized in the half-open range `(-180_000, 180_000]`.
//! Sine and cosine are computed by an exact rational approximation scaled by
//! `TRIG_ONE`; the approximation is exact at every multiple of a quarter
//! turn, which is all the growth engine's scenarios depend on.

use vstd::prelude::*;

verus! {

/// Thousandths of a degree in a half turn.
pub const HALF_TURN: i64 = 180_000;
/// Thousandths of a degree in a quarter turn.
pub const QUARTER_TURN: i64 = 90_000;
/// Thousandths of a degree in a full turn.
pub const FULL_TURN: i64 = 360_000;
/// Fixed-point scale of sine and cosine values: `TRIG_ONE` stands for 1.
pub const TRIG_ONE: i64 = 1_000_000;

/// A direction in the plane, counted in thousandths of a degree,
/// normalized into `(-HALF_TURN, HALF_TURN]`.
#[derive(Debug, Clone, Copy, PartialEq, Eq, Structural)]
pub struct Angle {
    pub mdeg: i64,
}

/// Normalization of an arbitrary count of thousandths of a degree
/// into `(-HALF_TURN, HALF_TURN]`.
pub open spec fn norm_mdeg(a: int) -> int {
    let m = a % (FULL_TURN as int);
    if m > HALF_TURN as int {
        m - FULL_TURN as int
    } else {
        m
    }
}

impl Angle {
    /// The normalized count of thousandths of a degree of this angle.
    pub open spec fn mdeg(self) -> int {
        self.mdeg as int
    }

    /// A normalized angle.
    pub open spec fn wf(self) -> bool {
        -(HALF_TURN as int) < self.mdeg() <= HALF_TURN as int
    }

    /// The angle of `a` thousandths of a degree, normalized.
    pub fn new(a: i64) -> (r: Self)
        requires
            a > i64::MIN,
        ensures
            r.mdeg() == norm_mdeg(a as int),
            r.wf(),
    {
        let m: u64 = if a >= 0 {
            (a as u64) % (FULL_TURN as u64)
        } else {
            let k: u64 = ((-a) as u64) % (FULL_TURN as u64);
            if k == 0 {
                0
            } else {
                (FULL_TURN as u64) - k
            }
        };
        proof {
            let f = FULL_TURN as int;
            let ai = a as int;
            vstd::arithmetic::div_mod::lemma_mod_bound(ai, f);
            if a < 0 {
                vstd::arithmetic::div_mod::lemma_mod_bound(-ai, f);
                vstd::arithmetic::div_mod::lemma_mod_adds(ai, -ai, f);
                vstd::arithmetic::div_mod::lemma_small_mod(0, f as nat);
                let s = ai % f + (-ai) % f;
                assert(s == f * (s / f));
                assert(s == 0 || s == f) by (nonlinear_arith)
                    requires
                        0 <= s < 2 * f,
                        s == f * (s / f),
                        0 < f,
                {}
            }
            assert(m as int == ai % f);
        }
        let r: i64 = if m > HALF_TURN as u64 {
            (m as i64) - FULL_TURN
        } else {
            m as i64
        };
        Self { mdeg: r }
    }

    /// This angle as a count of thousandths of a degree.
    pub fn as_mdeg(&self) -> (r: i64)
        ensures
            r as int == self.mdeg(),
    {
        self.mdeg
    }

    /// What `opposite` returns: the angle turned by a half turn.
    pub open spec fn spec_opposite(self) -> Angle {
        if self.mdeg() <= 0 {
            Angle { mdeg: (self.mdeg + HALF_TURN) as i64 }
        } else {
            Angle { mdeg: (self.mdeg - HALF_TURN) as i64 }
        }
    }

    /// The opposite direction.
    pub fn opposite(self) -> (r: Self)
        requires
            self.wf(),
        ensures
            r == self.spec_opposite(),
            r.wf(),
    {
        if self.mdeg <= 0 {
            Self { mdeg: self.mdeg + HALF_TURN }
        } else {
            Self { mdeg: self.mdeg - HALF_TURN }
        }
    }

    /// Turning twice by a half turn comes back to the same angle.
    pub proof fn lemma_opposite_involution(self)
        requires
            self.wf(),
        ensures
            self.spec_opposite().spec_opposite() == self,
    {
    }

    /// What `right_clockwise` returns: the angle turned clockwise by a
    /// quarter turn.
    pub open spec fn spec_right_clockwise(self) -> Angle {
        if self.mdeg() - QUARTER_TURN <= -(HALF_TURN as int) {
            Angle { mdeg: (self.mdeg - QUARTER_TURN + FULL_TURN) as i64 }
        } else {
            Angle { mdeg: (self.mdeg - QUARTER_TURN) as i64 }
        }
    }

    /// The direction a quarter turn clockwise from this one.
    pub fn right_clockwise(self) -> (r: Self)
        requires
            self.wf(),
        ensures
            r == self.spec_right_clockwise(),
            r.wf(),
    {
        let b: i64 = self.mdeg - QUARTER_TURN;
        if b <= -HALF_TURN {
            Self { mdeg: b + FULL_TURN }
        } else {
            Self { mdeg: b }
        }
    }

    /// What `right_counterclockwise` returns: the angle turned
    /// counter-clockwise by a quarter turn.
    pub open spec fn spec_right_counterclockwise(self) -> Angle {
        if self.mdeg() + QUARTER_TURN > HALF_TURN as int {
            Angle { mdeg: (self.mdeg + QUARTER_TURN - FULL_TURN) as i64 }
        } else {
            Angle { mdeg: (self.mdeg + QUARTER_TURN) as i64 }
        }
    }

    /// The direction a quarter turn counter-clockwise from this one.
    pub fn right_counterclockwise(self) -> (r: Self)
        requires
            self.wf(),
        ensures
            r == self.spec_right_counterclockwise(),
            r.wf(),
    {
        let b: i64 = self.mdeg + QUARTER_TURN;
        if b > HALF_TURN {
            Self { mdeg: b - FULL_TURN }
        } else {
            Self { mdeg: b }
        }
    }
    /// What `sin` returns.
    pub open spec fn spec_sin(self) -> int {
        if self.mdeg() >= 0 {
            spec_sin_half(self.mdeg())
        } else {
            -spec_sin_half(-self.mdeg())
        }
    }

    /// The sine of this angle, scaled by `TRIG_ONE`.
    pub fn sin(&self) -> (r: i64)
        requires
            self.wf(),
        ensures
            r as int == self.spec_sin(),
            -TRIG_ONE <= r <= TRIG_ONE,
    {
        if self.mdeg >= 0 {
            sin_half(self.mdeg)
        } else {
            -sin_half(-self.mdeg)
        }
    }

    /// What `cos` returns.
    pub open spec fn spec_cos(self) -> int {
        let b = if self.mdeg() >= 0 {
            self.mdeg()
        } else {
            -self.mdeg()
        };
        if b <= QUARTER_TURN as int {
            spec_sin_half(QUARTER_TURN as int - b)
        } else {
            -spec_sin_half(b - QUARTER_TURN as int)
        }
    }

    /// The cosine of this angle, scaled by `TRIG_ONE`.
    pub fn cos(&self) -> (r: i64)
        requires
            self.wf(),
        ensures
            r as int == self.spec_cos(),
            -TRIG_ONE <= r <= TRIG_ONE,
    {
        let b: i64 = if self.mdeg >= 0 {
            self.mdeg
        } else {
            -self.mdeg
        };
        if b <= QUARTER_TURN {
            sin_half(QUARTER_TURN - b)
        } else {
            -sin_half(b - QUARTER_TURN)
        }
    }

    /// The number of angles a fan of `steps` comparison steps holds:
    /// an even count is defensively rounded up to the next odd one.
    pub open spec fn spec_fan_len(steps: int) -> int {
        if steps % 2 == 0 {
            steps + 1
        } else {
            steps
        }
    }

    /// The offset of the fan angle at position `i`, for offsets running
    /// evenly from `-max` to `max` around the middle position `half`.
    pub open spec fn spec_fan_offset(max: int, half: int, i: int) -> int {
        if i < half {
            -(((half - i) * max) / half)
        } else if half == 0 {
            0
        } else {
            ((i - half) * max) / half
        }
    }

    /// What `iter_range_around` returns.
    pub open spec fn spec_fan(self, max: int, steps: int) -> Seq<Angle> {
        let len = Self::spec_fan_len(steps);
        Seq::new(len as nat, |i: int|
            Angle {
                mdeg: norm_mdeg(self.mdeg() + Self::spec_fan_offset(max, len / 2, i)) as i64,
            })
    }

    /// An odd number of angles evenly spaced on the closed range from
    /// `max` thousandths of a degree clockwise of this angle to `max`
    /// counter-clockwise of it, in turning order, the middle one equal
    /// to this angle.
    pub fn iter_range_around(&self, max: i64, steps: usize) -> (r: Vec<Angle>)
        requires
            self.wf(),
            0 <= max <= HALF_TURN,
            steps <= 100_000,
        ensures
            r@ == self.spec_fan(max as int, steps as int),
            r@.len() % 2 == 1,
    {
        let k: usize = if steps % 2 == 0 {
            steps + 1
        } else {
            steps
        };
        let half: usize = k / 2;
        proof {
            vstd::arithmetic::div_mod::lemma_fundamental_div_mod(k as int, 2);
            assert(k as int % 2 == 1);
            assert(k as int == 2 * (half as int) + 1);
        }
        let mut r: Vec<Angle> = Vec::new();
        let ghost fan = self.spec_fan(max as int, steps as int);
        assert(k as int == Self::spec_fan_len(steps as int));
        let mut i: usize = 0;
        while i < k
            invariant
                i <= k,
                half <= 50_000,
                k as int == 2 * (half as int) + 1,
                0 <= max <= HALF_TURN,
                self.wf(),
                fan == self.spec_fan(max as int, steps as int),
                fan.len() == k as int,
                k as int == Self::spec_fan_len(steps as int),
                half as int == Self::spec_fan_len(steps as int) / 2,
                r@.len() == i as int,
                forall|j: int| 0 <= j < i as int ==> r@[j] == fan[j],
            decreases k - i,
        {
            let off: i64 = if i < half {
                proof {
                    assert(((half - i) as u64) as int * (max as u64) as int
                        <= 50_000 * 180_000)
                        by (nonlinear_arith)
                        requires
                            0 <= ((half - i) as u64) as int <= 50_000,
                            0 <= (max as u64) as int <= 180_000,
                    {}
                }
                let m: u64 = ((half - i) as u64) * (max as u64) / (half as u64);
                proof {
                    assert((half - i) as int * (max as int) <= (half as int) * (max as int))
                        by (nonlinear_arith)
                        requires 0 <= (half - i) as int <= half as int, 0 <= max as int,
                    {}
                    vstd::arithmetic::div_mod::lemma_multiply_divide_le(
                        (half - i) as int * (max as int), half as int, max as int);
                }
                -(m as i64)
            } else if half == 0 {
                0
            } else {
                proof {
                    assert(((i - half) as u64) as int * (max as u64) as int
                        <= 50_000 * 180_000)
                        by (nonlinear_arith)
                        requires
                            0 <= ((i - half) as u64) as int <= 50_000,
                            0 <= (max as u64) as int <= 180_000,
                    {}
                }
                let m: u64 = ((i - half) as u64) * (max as u64) / (half as u64);
                proof {
                    assert((i - half) as int * (max as int) <= (half as int) * (max as int))
                        by (nonlinear_arith)
                        requires 0 <= (i - half) as int <= half as int, 0 <= max as int,
                    {}
                    vstd::arithmetic::div_mod::lemma_multiply_divide_le(
                        (i - half) as int * (max as int), half as int, max as int);
                }
                m as i64
            };
            assert(off as int == Self::spec_fan_offset(max as int, half as int, i as int));
            let a = Angle::new(self.mdeg + off);
            assert(a == fan[i as int]);
            r.push(a);
            i = i + 1;
        }
        proof {
            assert(r@ =~= fan);
            assert(k as int % 2 == 1);
        }
        r
    }
}

/// The scaled sine of `x` thousandths of a degree on the first half
/// turn: an exact rational approximation, `0` at `0` and at a half
/// turn and exactly `TRIG_ONE` at a quarter turn.
pub open spec fn spec_sin_half(x: int) -> int {
    let u = x * (HALF_TURN as int - x);
    (u * 4_000_000) / (40_500_000_000 - u)
}

/// The scaled sine on the first half turn.
pub fn sin_half(x: i64) -> (r: i64)
    requires
        0 <= x <= HALF_TURN,
    ensures
        r as int == spec_sin_half(x as int),
        0 <= r <= TRIG_ONE,
{
    let xu: u64 = x as u64;
    let d: u64 = (HALF_TURN as u64) - xu;
    proof {
        assert(0 <= xu as int * d as int <= 8_100_000_000)
            by (nonlinear_arith)
            requires
                0 <= xu as int <= 180_000,
                d as int == 180_000 - xu as int,
        {}
    }
    let u: u64 = xu * d;
    let num: u64 = u * 4_000_000;
    let den: u64 = 40_500_000_000u64 - u;
    let r: u64 = num / den;
    proof {
        vstd::arithmetic::div_mod::lemma_multiply_divide_le(
            num as int, den as int, 1_000_000);
    }
    r as i64
}

} // verus!
