//! Earliest-contact computation between two circles moving at constant
//! relative velocity: the quadratic `|dpos + t*dvel|^2 = radius_sum^2`
//! solved exactly over the integers, the root returned as a fraction.

use vstd::prelude::*;
use crate::vec2::{Vec2, dot_spec};
use crate::num::isqrt;

verus! {

/// A non-negative time, as an exact fraction of the turn window.
#[derive(Clone, Copy, Debug, PartialEq, Eq, Structural)]
pub struct Frac {
    pub num: i128,
    pub den: i128,
}

impl Frac {
    /// A meaningful, bounded time value.
    pub open spec fn wf(self) -> bool {
        0 <= self.num <= 0x8000_0000_0000_0000 && 0 < self.den <= 0x8000_0000_0000_0000
    }

    /// The fraction equals `n / d`.
    pub open spec fn is(self, n: int, d: int) -> bool {
        self.num * d == n * self.den
    }

    /// Exact order on fractions with positive denominators.
    pub open spec fn lt_spec(self, o: Frac) -> bool {
        self.num * o.den < o.num * self.den
    }

    /// Strictly-less comparison of two times.
    pub fn lt(self, o: Frac) -> (r: bool)
        requires
            self.wf(),
            o.wf(),
        ensures
            r == self.lt_spec(o),
    {
        proof {
            assert(-0x4000_0000_0000_0000_0000_0000_0000_0000 <= self.num * o.den
                <= 0x4000_0000_0000_0000_0000_0000_0000_0000
                && -0x4000_0000_0000_0000_0000_0000_0000_0000 <= o.num * self.den
                <= 0x4000_0000_0000_0000_0000_0000_0000_0000) by (nonlinear_arith)
                requires
                    0 <= self.num <= 0x8000_0000_0000_0000,
                    0 < self.den <= 0x8000_0000_0000_0000,
                    0 <= o.num <= 0x8000_0000_0000_0000,
                    0 < o.den <= 0x8000_0000_0000_0000,
            ;
        }
        self.num * o.den < o.num * self.den
    }
}

/// What `circle_collision_time` returns for the given relative position,
/// relative velocity and radius sum: the full case split of the contact
/// quadratic, with the square root of the discriminant rounded down.
pub open spec fn is_contact_result(dpos: Vec2, dvel: Vec2, radius_sum: int, r: Option<Frac>) -> bool {
    &&& (qb(dpos, dvel) >= 0 ==> r is None)
    &&& (qb(dpos, dvel) < 0 && qc(dpos, radius_sum) <= 0 ==> r == Some(Frac { num: 0, den: 1 }))
    &&& (qb(dpos, dvel) < 0 && qc(dpos, radius_sum) > 0 && qdisc(dpos, dvel, radius_sum) < 0
        ==> r is None)
    &&& (qb(dpos, dvel) < 0 && qc(dpos, radius_sum) > 0 && qdisc(dpos, dvel, radius_sum) >= 0
        ==> {
        &&& r is Some
        &&& {
            let t = r->Some_0;
            let s = -qb(dpos, dvel) - t.num;
            &&& t.den == 2 * qa(dvel)
            &&& s >= 0
            &&& s * s <= qdisc(dpos, dvel, radius_sum) < (s + 1) * (s + 1)
        }
    })
    &&& (r is Some ==> r->Some_0.wf())
}

/// For fixed inputs the contact result is unique: any two fractions that
/// both satisfy it are equal.
pub proof fn lemma_contact_unique(dpos: Vec2, dvel: Vec2, radius_sum: int, t1: Frac, t2: Frac)
    requires
        is_contact_result(dpos, dvel, radius_sum, Some(t1)),
        is_contact_result(dpos, dvel, radius_sum, Some(t2)),
    ensures
        t1 == t2,
{
    if qb(dpos, dvel) < 0 && qc(dpos, radius_sum) > 0 && qdisc(dpos, dvel, radius_sum) >= 0 {
        let s1 = -qb(dpos, dvel) - t1.num;
        let s2 = -qb(dpos, dvel) - t2.num;
        crate::num::lemma_sqrt_floor_unique(s1, qdisc(dpos, dvel, radius_sum));
        crate::num::lemma_sqrt_floor_unique(s2, qdisc(dpos, dvel, radius_sum));
    }
}

/// Twice the dot product of relative velocity and relative position: the
/// linear coefficient of the contact quadratic.  Negative exactly when the
/// circles approach each other.
pub open spec fn qb(dpos: Vec2, dvel: Vec2) -> int {
    2 * dot_spec(dvel, dpos)
}

/// The quadratic coefficient: the squared relative speed.
pub open spec fn qa(dvel: Vec2) -> int {
    dot_spec(dvel, dvel)
}

/// The constant coefficient: squared distance minus squared radius sum.
/// Non-positive exactly when the circles already overlap.
pub open spec fn qc(dpos: Vec2, radius_sum: int) -> int {
    dot_spec(dpos, dpos) - radius_sum * radius_sum
}

/// The discriminant of the contact quadratic.
pub open spec fn qdisc(dpos: Vec2, dvel: Vec2, radius_sum: int) -> int {
    qb(dpos, dvel) * qb(dpos, dvel) - 4 * qa(dvel) * qc(dpos, radius_sum)
}

/// The earliest non-negative time at which two circles with relative
/// position `dpos`, relative velocity `dvel` and combined radius
/// `radius_sum` touch, restricted to the window where they approach:
///
/// - if the circles are not approaching (`qb >= 0`), there is no contact;
/// - if they already overlap (`qc <= 0`), contact is at time zero;
/// - if the discriminant is negative, their paths never meet;
/// - otherwise the smaller root `(-qb - sqrt(qdisc)) / (2 qa)` of the
///   quadratic is returned, its square root rounded down to an integer,
///   which is exact whenever the discriminant is a perfect square.
pub fn circle_collision_time(dpos: Vec2, dvel: Vec2, radius_sum: i64) -> (r: Option<Frac>)
    requires
        dpos.bounded(0x4000_0000),
        dvel.bounded(0x4000_0000),
        -0x10_0000 <= radius_sum <= 0x10_0000,
    ensures
        qb(dpos, dvel) >= 0 ==> r is None,
        qb(dpos, dvel) < 0 && qc(dpos, radius_sum as int) <= 0
            ==> r == Some(Frac { num: 0, den: 1 }),
        qb(dpos, dvel) < 0 && qc(dpos, radius_sum as int) > 0
            && qdisc(dpos, dvel, radius_sum as int) < 0 ==> r is None,
        qb(dpos, dvel) < 0 && qc(dpos, radius_sum as int) > 0
            && qdisc(dpos, dvel, radius_sum as int) >= 0 ==> {
            &&& r is Some
            &&& {
                let t = r->Some_0;
                let s = -qb(dpos, dvel) - t.num;
                &&& t.den == 2 * qa(dvel)
                &&& s >= 0
                &&& s * s <= qdisc(dpos, dvel, radius_sum as int) < (s + 1) * (s + 1)
            }
        },
        r is Some ==> r->Some_0.wf(),
        is_contact_result(dpos, dvel, radius_sum as int, r),
{
    let d0: i128 = dvel.dot(dpos);
    proof {
        assert(-0x2000_0000_0000_0000 <= (d0 as int) <= 0x2000_0000_0000_0000)
            by (nonlinear_arith)
            requires
                (d0 as int) == dvel.x * dpos.x + dvel.y * dpos.y,
                -0x4000_0000 <= dpos.x <= 0x4000_0000,
                -0x4000_0000 <= dpos.y <= 0x4000_0000,
                -0x4000_0000 <= dvel.x <= 0x4000_0000,
                -0x4000_0000 <= dvel.y <= 0x4000_0000,
        ;
    }
    let b: i128 = 2 * d0;
    if b >= 0 {
        return None;
    }
    let pp: i128 = dpos.dot(dpos);
    proof {
        assert(0 <= (pp as int) <= 0x2000_0000_0000_0000
            && 0 <= (radius_sum as int) * (radius_sum as int) <= 0x100_0000_0000)
            by (nonlinear_arith)
            requires
                (pp as int) == dpos.x * dpos.x + dpos.y * dpos.y,
                -0x4000_0000 <= dpos.x <= 0x4000_0000,
                -0x4000_0000 <= dpos.y <= 0x4000_0000,
                -0x10_0000 <= radius_sum <= 0x10_0000,
        ;
    }
    let rs2: i128 = (radius_sum as i128) * (radius_sum as i128);
    let c: i128 = pp - rs2;
    if c <= 0 {
        return Some(Frac { num: 0, den: 1 });
    }
    let a: i128 = dvel.dot(dvel);
    proof {
        assert(a as int > 0) by (nonlinear_arith)
            requires
                (a as int) == dvel.x * dvel.x + dvel.y * dvel.y,
                (b as int) == 2 * (dvel.x * dpos.x + dvel.y * dpos.y),
                b < 0,
        ;
        assert(-0x4000_0000_0000_0000 <= (b as int) <= 0x4000_0000_0000_0000
            && 0 <= (a as int) <= 0x2000_0000_0000_0000
            && -0x2000_0000_0000_0000 <= (c as int) <= 0x2000_0000_0000_0000)
            by (nonlinear_arith)
            requires
                (a as int) == dvel.x * dvel.x + dvel.y * dvel.y,
                (b as int) == 2 * (dvel.x * dpos.x + dvel.y * dpos.y),
                (c as int) == dpos.x * dpos.x + dpos.y * dpos.y
                    - (radius_sum as int) * (radius_sum as int),
                -0x4000_0000 <= dpos.x <= 0x4000_0000,
                -0x4000_0000 <= dpos.y <= 0x4000_0000,
                -0x4000_0000 <= dvel.x <= 0x4000_0000,
                -0x4000_0000 <= dvel.y <= 0x4000_0000,
                -0x10_0000 <= radius_sum <= 0x10_0000,
        ;
        assert(0 <= (b as int) * (b as int) <= 0x1000_0000_0000_0000_0000_0000_0000_0000
            && 0 <= 4 * (a as int) * (c as int) <= 0x1000_0000_0000_0000_0000_0000_0000_0000)
            by (nonlinear_arith)
            requires
                -0x4000_0000_0000_0000 <= (b as int) <= 0x4000_0000_0000_0000,
                0 <= (a as int) <= 0x2000_0000_0000_0000,
                0 <= (c as int) <= 0x2000_0000_0000_0000,
        ;
    }
    let disc: i128 = b * b - 4 * a * c;
    if disc < 0 {
        return None;
    }
    let s128: u64 = isqrt(disc as u128);
    proof {
        assert((s128 as int) * (s128 as int) <= (disc as int));
        assert((s128 as int) < 0x8000_0000_0000_0000 && (s128 as int) < -(b as int))
            by (nonlinear_arith)
            requires
                (s128 as int) * (s128 as int) <= (disc as int),
                (disc as int) == (b as int) * (b as int) - 4 * (a as int) * (c as int),
                (disc as int) <= 0x2000_0000_0000_0000_0000_0000_0000_0000,
                (a as int) > 0,
                (c as int) > 0,
                (b as int) < 0,
                (s128 as int) >= 0,
        ;
    }
    let s: i128 = s128 as i128;
    Some(Frac { num: -b - s, den: 2 * a })
}

} // verus!
