//! Plane vectors with integer components: the positions, velocities and
//! impulses of the engine.

use vstd::prelude::*;
use crate::num::is_sqrt_floor;
use crate::num::isqrt;

verus! {

#[derive(Clone, Copy, Debug, PartialEq, Eq, Structural)]
pub struct Vec2 {
    pub x: i64,
    pub y: i64,
}

/// The dot product, as plain integer arithmetic.
pub open spec fn dot_spec(a: Vec2, b: Vec2) -> int {
    a.x * b.x + a.y * b.y
}

impl Vec2 {
    /// Both components lie within `b` of zero.
    pub open spec fn bounded(self, b: int) -> bool {
        -b <= self.x <= b && -b <= self.y <= b
    }

    pub fn new(x: i64, y: i64) -> (r: Vec2)
        ensures
            r.x == x,
            r.y == y,
    {
        Vec2 { x, y }
    }

    pub fn zero() -> (r: Vec2)
        ensures
            r.x == 0,
            r.y == 0,
    {
        Vec2 { x: 0, y: 0 }
    }

    pub fn same(v: i64) -> (r: Vec2)
        ensures
            r.x == v,
            r.y == v,
    {
        Vec2 { x: v, y: v }
    }

    pub fn add(self, o: Vec2) -> (r: Vec2)
        requires
            self.x + o.x <= i64::MAX,
            self.x + o.x >= i64::MIN,
            self.y + o.y <= i64::MAX,
            self.y + o.y >= i64::MIN,
        ensures
            r.x == self.x + o.x,
            r.y == self.y + o.y,
    {
        Vec2 { x: self.x + o.x, y: self.y + o.y }
    }

    pub fn sub(self, o: Vec2) -> (r: Vec2)
        requires
            self.x - o.x <= i64::MAX,
            self.x - o.x >= i64::MIN,
            self.y - o.y <= i64::MAX,
            self.y - o.y >= i64::MIN,
        ensures
            r.x == self.x - o.x,
            r.y == self.y - o.y,
    {
        Vec2 { x: self.x - o.x, y: self.y - o.y }
    }

    pub fn neg(self) -> (r: Vec2)
        requires
            self.x > i64::MIN,
            self.y > i64::MIN,
        ensures
            r.x == -self.x,
            r.y == -self.y,
    {
        Vec2 { x: -self.x, y: -self.y }
    }

    /// A quarter turn clockwise.
    pub fn perp(self) -> (r: Vec2)
        requires
            self.x > i64::MIN,
        ensures
            r.x == self.y,
            r.y == -self.x,
    {
        Vec2 { x: self.y, y: -self.x }
    }

    /// The dot product of two vectors.
    pub fn dot(self, o: Vec2) -> (r: i128)
        requires
            self.bounded(0x4000_0000_0000_0000),
            o.bounded(0x4000_0000_0000_0000),
        ensures
            r == dot_spec(self, o),
    {
        proof {
            assert(-0x1000_0000_0000_0000_0000_0000_0000_0000
                <= (self.x as int) * (o.x as int) <= 0x1000_0000_0000_0000_0000_0000_0000_0000
                && -0x1000_0000_0000_0000_0000_0000_0000_0000
                <= (self.y as int) * (o.y as int) <= 0x1000_0000_0000_0000_0000_0000_0000_0000)
                by (nonlinear_arith)
                requires
                    self.bounded(0x4000_0000_0000_0000),
                    o.bounded(0x4000_0000_0000_0000),
            ;
        }
        (self.x as i128) * (o.x as i128) + (self.y as i128) * (o.y as i128)
    }

    /// The cross product of two vectors.
    pub fn cross(self, o: Vec2) -> (r: i128)
        requires
            self.bounded(0x4000_0000_0000_0000),
            o.bounded(0x4000_0000_0000_0000),
        ensures
            r == self.x * o.y - self.y * o.x,
    {
        proof {
            assert(-0x1000_0000_0000_0000_0000_0000_0000_0000
                <= (self.x as int) * (o.y as int) <= 0x1000_0000_0000_0000_0000_0000_0000_0000
                && -0x1000_0000_0000_0000_0000_0000_0000_0000
                <= (self.y as int) * (o.x as int) <= 0x1000_0000_0000_0000_0000_0000_0000_0000)
                by (nonlinear_arith)
                requires
                    self.bounded(0x4000_0000_0000_0000),
                    o.bounded(0x4000_0000_0000_0000),
            ;
        }
        (self.x as i128) * (o.y as i128) - (self.y as i128) * (o.x as i128)
    }

    /// The squared length of a vector.
    pub fn len_sq(self) -> (r: i128)
        requires
            self.bounded(0x4000_0000_0000_0000),
        ensures
            r == dot_spec(self, self),
            r >= 0,
    {
        let r = self.dot(self);
        proof {
            assert(dot_spec(self, self) >= 0) by (nonlinear_arith);
        }
        r
    }

    /// The squared distance between two points within coordinate range.
    pub fn distance_sq(self, o: Vec2) -> (r: i128)
        requires
            self.bounded(0x2000_0000_0000_0000),
            o.bounded(0x2000_0000_0000_0000),
        ensures
            r == dot_spec(
                Vec2 { x: (o.x - self.x) as i64, y: (o.y - self.y) as i64 },
                Vec2 { x: (o.x - self.x) as i64, y: (o.y - self.y) as i64 },
            ),
            r >= 0,
    {
        o.sub(self).len_sq()
    }

    /// The length of a vector, rounded down to an integer.
    pub fn len(self) -> (r: i64)
        requires
            self.bounded(0x4000_0000_0000_0000),
        ensures
            is_sqrt_floor(r as int, dot_spec(self, self)),
    {
        let sq = self.len_sq();
        proof {
            assert(dot_spec(self, self)
                <= 0x2000_0000_0000_0000_0000_0000_0000_0000) by (nonlinear_arith)
                requires
                    self.bounded(0x4000_0000_0000_0000),
            ;
        }
        let r = isqrt(sq as u128);
        proof {
            assert((r as int) * (r as int) <= sq < ((r as int) + 1) * ((r as int) + 1));
            assert(r as int <= 0x7fff_ffff_ffff_ffff) by (nonlinear_arith)
                requires
                    (r as int) * (r as int) <= sq,
                    sq <= 0x2000_0000_0000_0000_0000_0000_0000_0000,
                    r >= 0,
            ;
        }
        r as i64
    }

    /// The distance between two points, rounded down to an integer.
    pub fn distance_to(self, o: Vec2) -> (r: i64)
        requires
            self.bounded(0x2000_0000_0000_0000),
            o.bounded(0x2000_0000_0000_0000),
        ensures
            is_sqrt_floor(
                r as int,
                dot_spec(
                    Vec2 { x: (o.x - self.x) as i64, y: (o.y - self.y) as i64 },
                    Vec2 { x: (o.x - self.x) as i64, y: (o.y - self.y) as i64 },
                ),
            ),
    {
        o.sub(self).len()
    }
}

} // verus!
