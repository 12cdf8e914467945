use wizard_arena::math::{circle_collision_time, Frac};
use wizard_arena::num::{isqrt, div_round};
use wizard_arena::vec2::Vec2;

#[test]
fn contact_time_is_exactly_one_third() {
    // Combined radius 300, gap 500, closing speed 600: contact after 1/3
    // of the turn, and the discriminant is a perfect square so the
    // fraction is exact.
    let r = circle_collision_time(Vec2 { x: 500, y: 0 }, Vec2 { x: -600, y: 0 }, 300);
    assert_eq!(r, Some(Frac { num: 240000, den: 720000 }));
    let t = r.unwrap();
    assert_eq!(t.num * 3, t.den);
}

#[test]
fn separating_circles_never_meet() {
    // Positive relative velocity along the gap: not approaching.
    let r = circle_collision_time(Vec2 { x: 500, y: 0 }, Vec2 { x: 600, y: 0 }, 300);
    assert_eq!(r, None);
}

#[test]
fn static_circles_never_meet() {
    // Zero relative velocity: the linear coefficient is zero, no contact.
    let r = circle_collision_time(Vec2 { x: 500, y: 0 }, Vec2 { x: 0, y: 0 }, 300);
    assert_eq!(r, None);
}

#[test]
fn overlapping_approaching_circles_meet_at_once() {
    let r = circle_collision_time(Vec2 { x: 200, y: 0 }, Vec2 { x: -50, y: 0 }, 300);
    assert_eq!(r, Some(Frac { num: 0, den: 1 }));
}

#[test]
fn passing_wide_misses() {
    // Approaching, but the paths stay further apart than the radius sum.
    let r = circle_collision_time(Vec2 { x: 2000, y: 1000 }, Vec2 { x: -500, y: 0 }, 300);
    assert_eq!(r, None);
}

#[test]
fn zero_radius_sum_edge_case() {
    // The pickup special case relies on small and even non-positive
    // radius sums being handled exactly.
    let r = circle_collision_time(Vec2 { x: 400, y: 0 }, Vec2 { x: -100, y: 0 }, 0);
    // Two points closing head-on at 100 units per turn from 400 apart:
    // the discriminant is zero and the exact meeting time is 4 turns
    // (capping to the window is the caller's concern).
    assert!(r.is_some());
    let t = r.unwrap();
    assert_eq!(t.num, 80000);
    assert_eq!(t.den, 20000);
}

#[test]
fn isqrt_exact_values() {
    assert_eq!(isqrt(0), 0);
    assert_eq!(isqrt(1), 1);
    assert_eq!(isqrt(10), 3);
    assert_eq!(isqrt(129600000000u128), 360000);
    assert_eq!(isqrt(u128::from(u64::MAX)), 4294967295);
}

#[test]
fn rounded_division_halves_away_from_zero() {
    assert_eq!(div_round(5, 2), 3);
    assert_eq!(div_round(-5, 2), -3);
    assert_eq!(div_round(7, 2), 4);
    assert_eq!(div_round(9, 4), 2);
    assert_eq!(div_round(-9, 4), -2);
    assert_eq!(div_round(0, 7), 0);
}
