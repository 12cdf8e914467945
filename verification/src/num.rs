//! Integer arithmetic the engine is built on: a square root on `u128`,
//! division rounded to the nearest integer, and the saturation maps that
//! keep every coordinate and impulse inside the engine's range.

use vstd::prelude::*;
use crate::consts::{COORD_LIMIT, IMPULSE_LIMIT};

verus! {

/// `s` is the integer square root of `x`, rounded down.
pub open spec fn is_sqrt_floor(s: int, x: int) -> bool {
    0 <= s && s * s <= x && x < (s + 1) * (s + 1)
}

/// The integer square root of `x`, rounded down.
pub open spec fn sqrt_floor(x: int) -> int {
    choose|s: int| is_sqrt_floor(s, x)
}

/// Every non-negative integer has a square root rounded down, and
/// `sqrt_floor` denotes it.
pub proof fn lemma_sqrt_floor(x: int)
    requires
        x >= 0,
    ensures
        is_sqrt_floor(sqrt_floor(x), x),
    decreases x,
{
    if x == 0 {
        assert(is_sqrt_floor(0, 0));
    } else {
        lemma_sqrt_floor(x - 1);
        let s = sqrt_floor(x - 1);
        if (s + 1) * (s + 1) <= x {
            assert(is_sqrt_floor(s + 1, x)) by (nonlinear_arith)
                requires
                    is_sqrt_floor(s, x - 1),
                    (s + 1) * (s + 1) <= x,
            ;
        } else {
            assert(is_sqrt_floor(s, x));
        }
    }
}

/// The square root rounded down is unique.
pub proof fn lemma_sqrt_floor_unique(s: int, x: int)
    requires
        is_sqrt_floor(s, x),
    ensures
        s == sqrt_floor(x),
{
    let s2 = sqrt_floor(x);
    assert(is_sqrt_floor(s2, x));
    assert(s == s2) by (nonlinear_arith)
        requires
            is_sqrt_floor(s, x),
            is_sqrt_floor(s2, x),
    ;
}

/// Division of `a` by a positive `d`, rounded to the nearest integer,
/// halves rounded away from zero.
pub open spec fn rnd(a: int, d: int) -> int
    recommends
        d > 0,
{
    if a >= 0 {
        (2 * a + d) / (2 * d)
    } else {
        -((2 * (-a) + d) / (2 * d))
    }
}

/// A coordinate saturated to the engine's range.
pub open spec fn cl_coord(x: int) -> int {
    if x < -(COORD_LIMIT as int) {
        -(COORD_LIMIT as int)
    } else if x > COORD_LIMIT as int {
        COORD_LIMIT as int
    } else {
        x
    }
}

/// An impulse component saturated to the engine's range.
pub open spec fn cl_imp(x: int) -> int {
    if x < -(IMPULSE_LIMIT as int) {
        -(IMPULSE_LIMIT as int)
    } else if x > IMPULSE_LIMIT as int {
        IMPULSE_LIMIT as int
    } else {
        x
    }
}

/// Integer square root, rounded down.
pub fn isqrt(x: u128) -> (r: u64)
    ensures
        is_sqrt_floor(r as int, x as int),
        r == sqrt_floor(x as int),
{
    let mut lo: u128 = 0;
    let mut hi: u128 = 18446744073709551616;
    proof {
        assert((18446744073709551616 as int) * (18446744073709551616 as int) > x as int)
            by (nonlinear_arith)
            requires
                x < 340282366920938463463374607431768211456,
        ;
    }
    while hi - lo > 1
        invariant
            lo < hi <= 18446744073709551616,
            (lo as int) * (lo as int) <= x as int,
            (x as int) < (hi as int) * (hi as int),
        decreases hi - lo,
    {
        let mid: u128 = lo + (hi - lo) / 2;
        proof {
            assert((mid as int) * (mid as int)
                <= (18446744073709551615 as int) * (18446744073709551615 as int))
                by (nonlinear_arith)
                requires
                    0 <= mid as int <= 18446744073709551615,
            ;
        }
        let sq: u128 = mid * mid;
        if sq <= x {
            lo = mid;
        } else {
            hi = mid;
        }
    }
    proof {
        lemma_sqrt_floor_unique(lo as int, x as int);
    }
    lo as u64
}

/// Division by a positive divisor, rounded to the nearest integer with
/// halves away from zero.
pub fn div_round(a: i128, d: i128) -> (r: i128)
    requires
        0 < d <= 0x2000_0000_0000_0000_0000_0000_0000_0000,
        -0x2000_0000_0000_0000_0000_0000_0000_0000 <= a
            <= 0x2000_0000_0000_0000_0000_0000_0000_0000,
    ensures
        r == rnd(a as int, d as int),
{
    if a >= 0 {
        (2 * a + d) / (2 * d)
    } else {
        -((2 * (-a) + d) / (2 * d))
    }
}

/// Rounded division of a non-negative value never exceeds the value.
pub proof fn lemma_rnd_bound(a: int, d: int)
    requires
        a >= 0,
        d > 0,
    ensures
        0 <= rnd(a, d) <= a,
{
    let x = 2 * a + d;
    vstd::arithmetic::div_mod::lemma_fundamental_div_mod(x, 2 * d);
    vstd::arithmetic::div_mod::lemma_mod_bound(x, 2 * d);
    assert(0 <= x / (2 * d) <= a) by (nonlinear_arith)
        requires
            x == 2 * d * (x / (2 * d)) + x % (2 * d),
            0 <= x % (2 * d) < 2 * d,
            a >= 0,
            d > 0,
            x == 2 * a + d,
    ;
}

/// Saturates a value to the coordinate range.
pub fn clamp_coord(x: i128) -> (r: i64)
    ensures
        r == cl_coord(x as int),
{
    if x < -(COORD_LIMIT as i128) {
        -COORD_LIMIT
    } else if x > COORD_LIMIT as i128 {
        COORD_LIMIT
    } else {
        x as i64
    }
}

/// Saturates a value to the impulse range.
pub fn clamp_imp(x: i128) -> (r: i64)
    ensures
        r == cl_imp(x as int),
{
    if x < -(IMPULSE_LIMIT as i128) {
        -IMPULSE_LIMIT
    } else if x > IMPULSE_LIMIT as i128 {
        IMPULSE_LIMIT
    } else {
        x as i64
    }
}

} // verus!
