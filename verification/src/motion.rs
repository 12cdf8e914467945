//! Continuous motion within one turn: contact times against other bodies,
//! the walls and the goal posts, and the advance of positions along the
//! turn's quantized time grid.

use vstd::prelude::*;
use crate::consts::{
    BORDER_BOTTOM_Y, BORDER_RIGHT_X, GOAL_Y, GOAL_RADIUS, POLE_RADIUS, COORD_LIMIT, TIME_GRID,
};
use crate::vec2::{Vec2, dot_spec};
use crate::math::{Frac, circle_collision_time, is_contact_result};
use crate::num::{rnd, cl_coord, cl_imp, sqrt_floor, div_round, clamp_coord, clamp_imp, isqrt};
use crate::entity::{Entity, EntityType};
use crate::state::{TurnState, Stats};
use crate::store::EntityStore;

verus! {

/// The relative position of a pair, second body minus first.
pub open spec fn rel_pos(ea: Entity, eb: Entity) -> Vec2 {
    Vec2 { x: (eb.pos.x - ea.pos.x) as i64, y: (eb.pos.y - ea.pos.y) as i64 }
}

/// The relative velocity of a pair, second body minus first.
pub open spec fn rel_vel(ea: Entity, eb: Entity) -> Vec2 {
    Vec2 { x: (eb.vel.x - ea.vel.x) as i64, y: (eb.vel.y - ea.vel.y) as i64 }
}

/// The effective radius sum of a pair.  A wizard approaching a snaffle
/// uses the wizard's radius less one unit, which models the catch: the
/// snaffle need only enter the wizard's circle.
pub open spec fn pair_radius_sum(ea: Entity, eb: Entity) -> int {
    if ea.kind == EntityType::Wizard && eb.kind == EntityType::Snaffle {
        ea.kind.radius_spec() - 1
    } else {
        ea.kind.radius_spec() + eb.kind.radius_spec()
    }
}

/// A wizard in pickup cooldown, or a snaffle already held, never collides
/// with the other: the pair produces no contact at all.
pub open spec fn pair_excluded(ea: Entity, eb: Entity) -> bool {
    ea.kind == EntityType::Wizard && eb.kind == EntityType::Snaffle
        && (ea.snaffle_timeout > 0 || eb.linked is Some)
}

/// `max(x, 0)`.
pub open spec fn max0(x: int) -> int {
    if x < 0 {
        0
    } else {
        x
    }
}

/// Time until the entity reaches the top or bottom border, offset by its
/// radius, as a non-negative fraction: `None` while it has no vertical
/// velocity.  An entity already past the border rebounds at time zero.
pub open spec fn wall_time_y(e: Entity) -> Option<(int, int)> {
    if e.vel.y < 0 {
        Some((max0(e.pos.y - e.kind.radius_spec()), -e.vel.y as int))
    } else if e.vel.y > 0 {
        Some((max0(BORDER_BOTTOM_Y - e.kind.radius_spec() - e.pos.y), e.vel.y as int))
    } else {
        None
    }
}

/// Time until the entity reaches the left or right border, offset by its
/// radius; `None` while it has no horizontal velocity.
pub open spec fn wall_time_x(e: Entity) -> Option<(int, int)> {
    if e.vel.x < 0 {
        Some((max0(e.pos.x - e.kind.radius_spec()), -e.vel.x as int))
    } else if e.vel.x > 0 {
        Some((max0(BORDER_RIGHT_X - e.kind.radius_spec() - e.pos.x), e.vel.x as int))
    } else {
        None
    }
}

/// The vertical coordinate at which the entity would cross the side
/// border, reached after time `num/den`, falls strictly within the goal
/// mouth's span.
pub open spec fn in_goal_mouth(e: Entity, num: int, den: int) -> bool {
    den * (GOAL_Y - GOAL_RADIUS) < den * e.pos.y + num * e.vel.y
        && den * e.pos.y + num * e.vel.y < den * (GOAL_Y + GOAL_RADIUS)
}

/// The earliest wall rebound of an entity: the smaller of its vertical and
/// horizontal border-crossing times, with the flag telling which border
/// kind was hit (`true` for top or bottom).  A snaffle crossing a side
/// border within the goal mouth does not rebound: it is allowed to enter
/// the goal.  On equal times the vertical rebound wins.
pub open spec fn wall_rebound_spec(e: Entity) -> Option<(int, int, bool)> {
    match (wall_time_y(e), wall_time_x(e)) {
        (Option::None, Option::None) => None,
        (Option::Some((ny, dy)), Option::None) => Some((ny, dy, true)),
        (Option::None, Option::Some((nx, dx))) => if e.kind == EntityType::Snaffle
            && in_goal_mouth(e, nx, dx) {
            None
        } else {
            Some((nx, dx, false))
        },
        (Option::Some((ny, dy)), Option::Some((nx, dx))) => if nx * dy < ny * dx {
            if e.kind == EntityType::Snaffle && in_goal_mouth(e, nx, dx) {
                None
            } else {
                Some((nx, dx, false))
            }
        } else {
            Some((ny, dy, true))
        },
    }
}

impl TurnState {
    /// The contact time of two distinct bodies in the store, or `None`
    /// when they never touch while approaching.  A wizard in pickup
    /// cooldown computes no contact with a snaffle, nor does anyone with a
    /// snaffle already held; an approaching free snaffle is caught at the
    /// slightly reduced radius.
    pub fn collision_time(&self, eaid: usize, ebid: usize) -> (r: Option<Frac>)
        requires
            eaid != ebid,
            eaid < self.entities.inner.len(),
            ebid < self.entities.inner.len(),
            self.entities.inner[eaid as int].in_range(),
            self.entities.inner[ebid as int].in_range(),
        ensures
            ({
                let ea = self.entities.inner[eaid as int];
                let eb = self.entities.inner[ebid as int];
                if pair_excluded(ea, eb) {
                    r is None
                } else {
                    is_contact_result(rel_pos(ea, eb), rel_vel(ea, eb), pair_radius_sum(ea, eb), r)
                }
            }),
            r is Some ==> r->Some_0.wf(),
    {
        let ea = self.entities.get(eaid);
        let eb = self.entities.get(ebid);
        let radius_sum: i64;
        if ea.is_a(EntityType::Wizard) && eb.is_a(EntityType::Snaffle) {
            if ea.snaffle_timeout > 0 || eb.linked.is_some() {
                return None;
            }
            radius_sum = ea.kind.radius() - 1;
        } else {
            radius_sum = ea.kind.radius() + eb.kind.radius();
        }
        let dpos = eb.pos.sub(ea.pos);
        let dvel = eb.vel.sub(ea.vel);
        circle_collision_time(dpos, dvel, radius_sum)
    }

    /// The earliest wall rebound of the entity in the given slot, exactly
    /// as `wall_rebound_spec` describes it.
    pub fn rebound_time(&self, id: usize) -> (r: Option<(Frac, bool)>)
        requires
            id < self.entities.inner.len(),
            self.entities.inner[id as int].in_range(),
        ensures
            ({
                let w = wall_rebound_spec(self.entities.inner[id as int]);
                match w {
                    Option::None => r is None,
                    Option::Some((n, d, v)) => r is Some && {
                        let (t, rv) = r->Some_0;
                        t.num == n && t.den == d && rv == v
                    },
                }
            }),
            r is Some ==> r->Some_0.0.wf(),
    {
        let e = self.entities.get(id);
        let rad = e.kind.radius();
        let oy: Option<(i128, i128)> = if e.vel.y < 0 {
            let n = e.pos.y - rad;
            Some((if n < 0 { 0 } else { n as i128 }, -(e.vel.y as i128)))
        } else if e.vel.y > 0 {
            let n = BORDER_BOTTOM_Y - rad - e.pos.y;
            Some((if n < 0 { 0 } else { n as i128 }, e.vel.y as i128))
        } else {
            None
        };
        let ox: Option<(i128, i128)> = if e.vel.x < 0 {
            let n = e.pos.x - rad;
            Some((if n < 0 { 0 } else { n as i128 }, -(e.vel.x as i128)))
        } else if e.vel.x > 0 {
            let n = BORDER_RIGHT_X - rad - e.pos.x;
            Some((if n < 0 { 0 } else { n as i128 }, e.vel.x as i128))
        } else {
            None
        };
        match (oy, ox) {
            (Option::None, Option::None) => None,
            (Option::Some((ny, dy)), Option::None) => Some((Frac { num: ny, den: dy }, true)),
            (Option::None, Option::Some((nx, dx))) => {
                if e.is_a(EntityType::Snaffle) && goal_mouth_crossing(e, nx, dx) {
                    None
                } else {
                    Some((Frac { num: nx, den: dx }, false))
                }
            },
            (Option::Some((ny, dy)), Option::Some((nx, dx))) => {
                proof {
                    assert(-0x1_0000_0000_0000_0000 <= nx * dy <= 0x1_0000_0000_0000_0000
                        && -0x1_0000_0000_0000_0000 <= ny * dx <= 0x1_0000_0000_0000_0000)
                        by (nonlinear_arith)
                        requires
                            0 <= nx <= 0x4000_0000,
                            0 < dx <= 0x4000_0000,
                            0 <= ny <= 0x4000_0000,
                            0 < dy <= 0x4000_0000,
                    ;
                }
                if nx * dy < ny * dx {
                    if e.is_a(EntityType::Snaffle) && goal_mouth_crossing(e, nx, dx) {
                        None
                    } else {
                        Some((Frac { num: nx, den: dx }, false))
                    }
                } else {
                    Some((Frac { num: ny, den: dy }, true))
                }
            },
        }
    }

    /// Moves one entity along its velocity for `ticks` grid steps of the
    /// turn window, each coordinate rounded to the nearest integer and
    /// saturated to the engine's range.  Nothing else changes.
    pub fn fast_forward(&mut self, id: usize, ticks: u64)
        requires
            id < old(self).entities.inner.len(),
            ticks <= TIME_GRID,
        ensures
            *final(self) == (TurnState {
                entities: EntityStore {
                    inner: final(self).entities.inner,
                    ..old(self).entities
                },
                ..*old(self)
            }),
            final(self).entities.inner@ == old(self).entities.inner@.update(
                id as int,
                (Entity { pos: advanced_pos(old(self).entities.inner[id as int], ticks as int), ..old(self).entities.inner[id as int] }),
            ),
    {
        let mut e = self.entities.get(id);
        proof {
            assert(-0x1_0000_0000_0000_0000_0000_0000 <= (e.vel.x as int) * (ticks as int)
                <= 0x1_0000_0000_0000_0000_0000_0000
                && -0x1_0000_0000_0000_0000_0000_0000 <= (e.vel.y as int) * (ticks as int)
                <= 0x1_0000_0000_0000_0000_0000_0000)
                by (nonlinear_arith)
                requires
                    -0x8000_0000_0000_0000 <= e.vel.x < 0x8000_0000_0000_0000,
                    -0x8000_0000_0000_0000 <= e.vel.y < 0x8000_0000_0000_0000,
                    0 <= ticks <= 0x1_0000_0000,
            ;
        }
        let dx = div_round((e.vel.x as i128) * (ticks as i128), TIME_GRID as i128);
        let dy = div_round((e.vel.y as i128) * (ticks as i128), TIME_GRID as i128);
        e.pos.x = clamp_coord(e.pos.x as i128 + dx);
        e.pos.y = clamp_coord(e.pos.y as i128 + dy);
        self.entities.set(id, e);
    }
}

/// Where an entity stands after moving along its velocity for `ticks` grid
/// steps, rounded and saturated.
pub open spec fn advanced_pos(e: Entity, ticks: int) -> Vec2 {
    Vec2 {
        x: cl_coord(e.pos.x + rnd(e.vel.x * ticks, TIME_GRID as int)) as i64,
        y: cl_coord(e.pos.y + rnd(e.vel.y * ticks, TIME_GRID as int)) as i64,
    }
}

/// Whether a snaffle crossing the side border after time `nx/dx` would
/// pass through the goal mouth rather than hit the wall.
fn goal_mouth_crossing(e: Entity, nx: i128, dx: i128) -> (r: bool)
    requires
        e.in_range(),
        0 <= nx <= 0x1_0000_0000_0000,
        0 < dx <= 0x1_0000_0000_0000,
    ensures
        r == in_goal_mouth(e, nx as int, dx as int),
{
    proof {
        assert(-0x1_0000_0000_0000_0000_0000 <= dx * ((GOAL_Y - GOAL_RADIUS) as i128)
            <= 0x1_0000_0000_0000_0000_0000
            && -0x1_0000_0000_0000_0000_0000 <= dx * ((GOAL_Y + GOAL_RADIUS) as i128)
            <= 0x1_0000_0000_0000_0000_0000
            && -0x1_0000_0000_0000_0000_0000 <= dx * (e.pos.y as i128)
            <= 0x1_0000_0000_0000_0000_0000
            && -0x1_0000_0000_0000_0000_0000 <= nx * (e.vel.y as i128)
            <= 0x1_0000_0000_0000_0000_0000)
            by (nonlinear_arith)
            requires
                0 <= nx <= 0x1_0000_0000_0000,
                0 < dx <= 0x1_0000_0000_0000,
                -0x2000_0000 <= e.pos.y <= 0x2000_0000,
                -0x2000_0000 <= e.vel.y <= 0x2000_0000,
        ;
    }
    let lo: i128 = dx * ((GOAL_Y - GOAL_RADIUS) as i128);
    let hi: i128 = dx * ((GOAL_Y + GOAL_RADIUS) as i128);
    let at: i128 = dx * (e.pos.y as i128) + nx * (e.vel.y as i128);
    lo < at && at < hi
}


/// The fixed goal posts: one at each end of both goal mouths.
pub open spec fn pole_pos_spec(pid: int) -> Vec2 {
    if pid == 0 {
        Vec2 { x: 0int as i64, y: 1750int as i64 }
    } else if pid == 1 {
        Vec2 { x: 0int as i64, y: 5750int as i64 }
    } else if pid == 2 {
        Vec2 { x: 16000int as i64, y: 1750int as i64 }
    } else {
        Vec2 { x: 16000int as i64, y: 5750int as i64 }
    }
}

/// The fixed goal posts: one at each end of both goal mouths.
pub fn pole_position(pid: usize) -> (r: Vec2)
    requires
        pid < 4,
    ensures
        r == pole_pos_spec(pid as int),
        r.bounded(COORD_LIMIT as int),
{
    if pid == 0 {
        Vec2 { x: 0, y: 1750 }
    } else if pid == 1 {
        Vec2 { x: 0, y: 5750 }
    } else if pid == 2 {
        Vec2 { x: 16000, y: 1750 }
    } else {
        Vec2 { x: 16000, y: 5750 }
    }
}

/// Relative position of a goal post with respect to an entity.
pub open spec fn pole_dpos(e: Entity, pid: int) -> Vec2 {
    Vec2 {
        x: (pole_pos_spec(pid).x - e.pos.x) as i64,
        y: (pole_pos_spec(pid).y - e.pos.y) as i64,
    }
}

/// The entity's velocity, negated: the post's velocity relative to the
/// entity.
pub open spec fn vel_neg(e: Entity) -> Vec2 {
    Vec2 { x: -e.vel.x as i64, y: -e.vel.y as i64 }
}

/// Radius sum of an entity against a goal post.
pub open spec fn pole_radius_sum(e: Entity) -> int {
    POLE_RADIUS + e.kind.radius_spec()
}

/// Order is preserved under an upper bound: if `a` is below `b` and `c` is
/// not, then `c` is not below `a` either.
pub proof fn lemma_frac_lt_trans(a: Frac, b: Frac, c: Frac)
    requires
        a.wf(),
        b.wf(),
        c.wf(),
        a.lt_spec(b),
        !c.lt_spec(b),
    ensures
        !c.lt_spec(a),
{
    assert(!(c.num * a.den < a.num * c.den)) by (nonlinear_arith)
        requires
            a.num * b.den < b.num * a.den,
            !(c.num * b.den < b.num * c.den),
            a.den > 0,
            b.den > 0,
            c.den > 0,
    ;
}

/// Strict order passes through an upper bound: if `a` is below `b` and `c`
/// is not, then `a` is strictly below `c`.
pub proof fn lemma_frac_lt_le_trans(a: Frac, b: Frac, c: Frac)
    requires
        a.wf(),
        b.wf(),
        c.wf(),
        a.lt_spec(b),
        !c.lt_spec(b),
    ensures
        a.lt_spec(c),
{
    assert(a.num * c.den < c.num * a.den) by (nonlinear_arith)
        requires
            a.num * b.den < b.num * a.den,
            !(c.num * b.den < b.num * c.den),
            a.den > 0,
            b.den > 0,
            c.den > 0,
    ;
}

impl TurnState {
    /// The earliest contact of the entity against any of the four goal
    /// posts: the returned fraction is that post's exact contact time, and
    /// no post has an earlier one; `None` when no post is hit.
    pub fn pole_rebound_time(&self, id: usize) -> (r: Option<(Frac, usize)>)
        requires
            id < self.entities.inner.len(),
            self.entities.inner[id as int].in_range(),
        ensures
            ({
                let e = self.entities.inner[id as int];
                match r {
                    Option::None => forall|p2: int|
                        0 <= p2 < 4 ==> is_contact_result(
                            #[trigger] pole_dpos(e, p2),
                            vel_neg(e),
                            pole_radius_sum(e),
                            None,
                        ),
                    Option::Some((t, pid)) => {
                        &&& pid < 4
                        &&& t.wf()
                        &&& is_contact_result(pole_dpos(e, pid as int), vel_neg(e), pole_radius_sum(e), Some(t))
                        &&& forall|p2: int, t2: Frac|
                            0 <= p2 < 4 && #[trigger] is_contact_result(
                                pole_dpos(e, p2),
                                vel_neg(e),
                                pole_radius_sum(e),
                                Some(t2),
                            ) ==> !t2.lt_spec(t)
                        &&& forall|p2: int, t2: Frac|
                            0 <= p2 < pid && #[trigger] is_contact_result(
                                pole_dpos(e, p2),
                                vel_neg(e),
                                pole_radius_sum(e),
                                Some(t2),
                            ) ==> t.lt_spec(t2)
                    },
                }
            }),
    {
        let e = self.entities.get(id);
        let ghost ge = self.entities.inner[id as int];
        let radius_sum = POLE_RADIUS + e.kind.radius();
        let dvel = e.vel.neg();
        let mut best: Option<(Frac, usize)> = None;
        let mut pid: usize = 0;
        while pid < 4
            invariant
                pid <= 4,
                e == ge,
                ge.in_range(),
                dvel == vel_neg(ge),
                radius_sum == pole_radius_sum(ge),
                150 <= e.kind.radius_spec() <= 400,
                match best {
                    Option::None => forall|p2: int|
                        0 <= p2 < pid ==> is_contact_result(
                            #[trigger] pole_dpos(ge, p2),
                            vel_neg(ge),
                            pole_radius_sum(ge),
                            None,
                        ),
                    Option::Some((bt, bp)) => {
                        &&& bp < pid
                        &&& bt.wf()
                        &&& is_contact_result(pole_dpos(ge, bp as int), vel_neg(ge), pole_radius_sum(ge), Some(bt))
                        &&& forall|p2: int, t2: Frac|
                            0 <= p2 < pid && #[trigger] is_contact_result(
                                pole_dpos(ge, p2),
                                vel_neg(ge),
                                pole_radius_sum(ge),
                                Some(t2),
                            ) ==> !t2.lt_spec(bt)
                        &&& forall|p2: int, t2: Frac|
                            0 <= p2 < bp && #[trigger] is_contact_result(
                                pole_dpos(ge, p2),
                                vel_neg(ge),
                                pole_radius_sum(ge),
                                Some(t2),
                            ) ==> bt.lt_spec(t2)
                    },
                },
            decreases 4 - pid,
        {
            let pole = pole_position(pid);
            let dpos = pole.sub(e.pos);
            proof {
                assert(dpos == pole_dpos(ge, pid as int));
            }
            let cand = crate::math::circle_collision_time(dpos, dvel, radius_sum);
            match cand {
                Option::None => {},
                Option::Some(t) => {
                    match best {
                        Option::None => {
                            best = Some((t, pid));
                            proof {
                                assert forall|p2: int, t2: Frac|
                                    0 <= p2 < pid + 1 && #[trigger] is_contact_result(
                                        pole_dpos(ge, p2),
                                        vel_neg(ge),
                                        pole_radius_sum(ge),
                                        Some(t2),
                                    ) implies !t2.lt_spec(t) by {
                                    if p2 == pid as int {
                                        crate::math::lemma_contact_unique(
                                            pole_dpos(ge, p2),
                                            vel_neg(ge),
                                            pole_radius_sum(ge),
                                            t2,
                                            t,
                                        );
                                        assert(!t2.lt_spec(t)) by (nonlinear_arith)
                                            requires
                                                t2 == t,
                                                t.den > 0,
                                        ;
                                    }
                                }
                                assert forall|p2: int, t2: Frac|
                                    0 <= p2 < pid && #[trigger] is_contact_result(
                                        pole_dpos(ge, p2),
                                        vel_neg(ge),
                                        pole_radius_sum(ge),
                                        Some(t2),
                                    ) implies t.lt_spec(t2) by {}
                            }
                        },
                        Option::Some((bt, bp)) => {
                            if t.lt(bt) {
                                best = Some((t, pid));
                                proof {
                                    assert forall|p2: int, t2: Frac|
                                        0 <= p2 < pid + 1 && #[trigger] is_contact_result(
                                            pole_dpos(ge, p2),
                                            vel_neg(ge),
                                            pole_radius_sum(ge),
                                            Some(t2),
                                        ) implies !t2.lt_spec(t) by {
                                        if p2 == pid as int {
                                            crate::math::lemma_contact_unique(
                                                pole_dpos(ge, p2),
                                                vel_neg(ge),
                                                pole_radius_sum(ge),
                                                t2,
                                                t,
                                            );
                                            assert(!t2.lt_spec(t)) by (nonlinear_arith)
                                                requires
                                                    t2 == t,
                                                    t.den > 0,
                                            ;
                                        } else {
                                            lemma_frac_lt_trans(t, bt, t2);
                                        }
                                    }
                                    assert forall|p2: int, t2: Frac|
                                        0 <= p2 < pid && #[trigger] is_contact_result(
                                            pole_dpos(ge, p2),
                                            vel_neg(ge),
                                            pole_radius_sum(ge),
                                            Some(t2),
                                        ) implies t.lt_spec(t2) by {
                                        lemma_frac_lt_le_trans(t, bt, t2);
                                    }
                                }
                            } else {
                                proof {
                                    assert forall|p2: int, t2: Frac|
                                        0 <= p2 < pid + 1 && #[trigger] is_contact_result(
                                            pole_dpos(ge, p2),
                                            vel_neg(ge),
                                            pole_radius_sum(ge),
                                            Some(t2),
                                        ) implies !t2.lt_spec(bt) by {
                                        if p2 == pid as int {
                                            crate::math::lemma_contact_unique(
                                                pole_dpos(ge, p2),
                                                vel_neg(ge),
                                                pole_radius_sum(ge),
                                                t2,
                                                t,
                                            );
                                        }
                                    }
                                }
                            }
                        },
                    }
                },
            }
            pid = pid + 1;
        }
        best
    }
}


/// The denominator of the raw pairwise impulse: combined mass (in half
/// units) times the squared full radius sum.
pub open spec fn resp_denom(ea: Entity, eb: Entity) -> int {
    let rs = ea.kind.radius_spec() + eb.kind.radius_spec();
    (ea.kind.mass_x2_spec() + eb.kind.mass_x2_spec()) * (rs * rs)
}

/// The shared impulse multiplier of a pairwise collision, rounded to the
/// nearest integer and saturated: the first body's velocity gains this
/// times the other's mass, the second loses this times the first's, which
/// conserves momentum exactly.
pub open spec fn resp_q(ea: Entity, eb: Entity) -> (int, int) {
    let dp = rel_pos(ea, eb);
    let dv = rel_vel(ea, eb);
    let dd = dot_spec(dp, dv);
    (
        cl_imp(rnd(dp.x * dd, resp_denom(ea, eb))),
        cl_imp(rnd(dp.y * dd, resp_denom(ea, eb))),
    )
}

/// The total shared multiplier after both applications of the impulse: the
/// raw one, and a second that is the raw one again unless the raw impulse
/// magnitude falls below the floor of 100, in which case the second is
/// renormalized to exactly the floor in the same direction (zero impulse
/// stays zero).
pub open spec fn resp_total(ea: Entity, eb: Entity) -> (int, int) {
    let (qx, qy) = resp_q(ea, eb);
    let m = ea.kind.mass_x2_spec() * eb.kind.mass_x2_spec();
    if qx == 0 && qy == 0 {
        (0int, 0int)
    } else if (qx * qx + qy * qy) * (m * m) < 40000 {
        let nq = sqrt_floor(qx * qx + qy * qy);
        (qx + rnd(200 * qx, nq * m), qy + rnd(200 * qy, nq * m))
    } else {
        (2 * qx, 2 * qy)
    }
}

/// The first body's velocity after a (non-pickup) pairwise collision.
pub open spec fn resp_vel_a(ea: Entity, eb: Entity) -> Vec2 {
    let (tx, ty) = resp_total(ea, eb);
    Vec2 {
        x: cl_coord(ea.vel.x + tx * eb.kind.mass_x2_spec()) as i64,
        y: cl_coord(ea.vel.y + ty * eb.kind.mass_x2_spec()) as i64,
    }
}

/// The second body's velocity after a (non-pickup) pairwise collision.
pub open spec fn resp_vel_b(ea: Entity, eb: Entity) -> Vec2 {
    let (tx, ty) = resp_total(ea, eb);
    Vec2 {
        x: cl_coord(eb.vel.x - tx * ea.kind.mass_x2_spec()) as i64,
        y: cl_coord(eb.vel.y - ty * ea.kind.mass_x2_spec()) as i64,
    }
}

/// Momentum conservation of the pairwise collision response: as long as no
/// component saturates at the engine's range bound, the mass-weighted sum
/// of the two velocities is unchanged by the response, whatever the
/// masses, positions and velocities.  The saturation side condition is a
/// machine limit and cannot be dropped: the coordinate range admits states
/// whose impulse genuinely overshoots the bound, and saturation then keeps
/// the engine total at the cost of the conservation identity.  Nothing a
/// match can reach comes near the bound.
pub proof fn lemma_response_conserves_momentum(ea: Entity, eb: Entity)
    requires
        ({
            let (tx, ty) = resp_total(ea, eb);
            &&& cl_coord(ea.vel.x + tx * eb.kind.mass_x2_spec()) == ea.vel.x + tx
                * eb.kind.mass_x2_spec()
            &&& cl_coord(ea.vel.y + ty * eb.kind.mass_x2_spec()) == ea.vel.y + ty
                * eb.kind.mass_x2_spec()
            &&& cl_coord(eb.vel.x - tx * ea.kind.mass_x2_spec()) == eb.vel.x - tx
                * ea.kind.mass_x2_spec()
            &&& cl_coord(eb.vel.y - ty * ea.kind.mass_x2_spec()) == eb.vel.y - ty
                * ea.kind.mass_x2_spec()
        }),
    ensures
        ea.kind.mass_x2_spec() * resp_vel_a(ea, eb).x + eb.kind.mass_x2_spec() * resp_vel_b(
            ea,
            eb,
        ).x == ea.kind.mass_x2_spec() * ea.vel.x + eb.kind.mass_x2_spec() * eb.vel.x,
        ea.kind.mass_x2_spec() * resp_vel_a(ea, eb).y + eb.kind.mass_x2_spec() * resp_vel_b(
            ea,
            eb,
        ).y == ea.kind.mass_x2_spec() * ea.vel.y + eb.kind.mass_x2_spec() * eb.vel.y,
{
    let (tx, ty) = resp_total(ea, eb);
    let ma = ea.kind.mass_x2_spec();
    let mb = eb.kind.mass_x2_spec();
    assert(ma * (ea.vel.x + tx * mb) + mb * (eb.vel.x - tx * ma) == ma * ea.vel.x + mb
        * eb.vel.x) by (nonlinear_arith);
    assert(ma * (ea.vel.y + ty * mb) + mb * (eb.vel.y - ty * ma) == ma * ea.vel.y + mb
        * eb.vel.y) by (nonlinear_arith);
}

/// The velocity change of an entity rebounding off a goal post: the same
/// impulse form as the pairwise response, against an immovable post, with
/// the raw impulse applied once and the floor-corrected one once.
pub open spec fn pole_total(e: Entity, pid: int) -> (int, int) {
    let dp = pole_dpos(e, pid);
    let dv = vel_neg(e);
    let dd = dot_spec(dp, dv);
    let rs = pole_radius_sum(e);
    let qx = cl_imp(rnd(dp.x * dd, rs * rs));
    let qy = cl_imp(rnd(dp.y * dd, rs * rs));
    if qx == 0 && qy == 0 {
        (0int, 0int)
    } else if qx * qx + qy * qy < 10000 {
        let nq = sqrt_floor(qx * qx + qy * qy);
        (qx + rnd(100 * qx, nq), qy + rnd(100 * qy, nq))
    } else {
        (2 * qx, 2 * qy)
    }
}

/// The entity's velocity after rebounding off the given goal post.
pub open spec fn pole_new_vel(e: Entity, pid: int) -> Vec2 {
    let (tx, ty) = pole_total(e, pid);
    Vec2 { x: cl_coord(e.vel.x + tx) as i64, y: cl_coord(e.vel.y + ty) as i64 }
}


impl TurnState {
    /// Resolves one entity-pair collision event.  A wizard meeting a free,
    /// cooldown-expired snaffle picks it up: the two become linked, the
    /// wizard's pickup cooldown is set to three turns, the pickup is
    /// recorded, and no impulse is applied.  A wizard meeting a bludger
    /// makes the bludger home on that wizard, and the pair additionally
    /// exchanges the mutual impulse that every remaining pair exchanges:
    /// along the line of centres, scaled by both masses and inversely by
    /// the squared radius sum, applied twice — once raw, once lifted to
    /// the floor of 100 — and always conserving momentum exactly.
    pub fn collision_response(&mut self, stats: &mut Stats, eaid: usize, ebid: usize)
        requires
            eaid != ebid,
            eaid < old(self).entities.inner.len(),
            ebid < old(self).entities.inner.len(),
            old(self).entities.inner[eaid as int].in_range(),
            old(self).entities.inner[ebid as int].in_range(),
            (old(self).entities.inner[eaid as int].kind == EntityType::Wizard
                && old(self).entities.inner[ebid as int].kind == EntityType::Snaffle) ==> {
                &&& old(self).entities.inner[eaid as int].snaffle_timeout <= 0
                &&& old(self).entities.inner[eaid as int].linked is None
                &&& old(self).entities.inner[ebid as int].linked is None
            },
        ensures
            *final(self) == (TurnState {
                entities: EntityStore {
                    inner: final(self).entities.inner,
                    ..old(self).entities
                },
                ..*old(self)
            }),
            ({
                let ea = old(self).entities.inner[eaid as int];
                let eb = old(self).entities.inner[ebid as int];
                if ea.kind == EntityType::Wizard && eb.kind == EntityType::Snaffle {
                    &&& final(self).entities.inner@ == old(self).entities.inner@.update(
                        eaid as int,
                        (Entity {
                            linked: Some(ebid),
                            snaffle_timeout: 3int as i64,
                            ..ea
                        }),
                    ).update(ebid as int, (Entity { linked: Some(eaid), ..eb }))
                    &&& final(stats).collected@ == old(stats).collected@.push((eaid, ebid))
                    &&& final(stats).collisions@ == old(stats).collisions@
                    &&& final(stats).my_score_gain == old(stats).my_score_gain
                    &&& final(stats).enemy_score_gain == old(stats).enemy_score_gain
                } else {
                    &&& final(self).entities.inner@ == old(self).entities.inner@.update(
                        eaid as int,
                        (Entity { vel: resp_vel_a(ea, eb), ..ea }),
                    ).update(
                        ebid as int,
                        (Entity {
                            vel: resp_vel_b(ea, eb),
                            linked: if ea.kind == EntityType::Wizard && eb.kind
                                == EntityType::Bludger {
                                Some(eaid)
                            } else {
                                eb.linked
                            },
                            ..eb
                        }),
                    )
                    &&& *final(stats) == *old(stats)
                }
            }),
    {
        let ea = self.entities.get(eaid);
        let eb = self.entities.get(ebid);
        if ea.is_a(EntityType::Wizard) && eb.is_a(EntityType::Snaffle) {
            let mut ea2 = ea;
            ea2.linked = Some(ebid);
            ea2.snaffle_timeout = 3;
            let mut eb2 = eb;
            eb2.linked = Some(eaid);
            self.entities.set(eaid, ea2);
            self.entities.set(ebid, eb2);
            stats.collected.push((eaid, ebid));
            return;
        }
        let ma2 = ea.kind.mass_x2();
        let mb2 = eb.kind.mass_x2();
        let rs = ea.kind.radius() + eb.kind.radius();
        let dp = eb.pos.sub(ea.pos);
        let dv = eb.vel.sub(ea.vel);
        let dd = dp.dot(dv);
        proof {
            assert(-0x4000_0000_0000_0000 <= (dd as int) <= 0x4000_0000_0000_0000
                && -0x1_0000_0000_0000_0000_0000_0000 <= dp.x * (dd as int)
                <= 0x1_0000_0000_0000_0000_0000_0000
                && -0x1_0000_0000_0000_0000_0000_0000 <= dp.y * (dd as int)
                <= 0x1_0000_0000_0000_0000_0000_0000
                && 0 < (rs as int) * (rs as int) <= 0x10_0000
                && 0 < ((ma2 + mb2) as int) * ((rs as int) * (rs as int)) <= 0x1_0000_0000)
                by (nonlinear_arith)
                requires
                    (dd as int) == dp.x * dv.x + dp.y * dv.y,
                    -0x4000_0000 <= dp.x <= 0x4000_0000,
                    -0x4000_0000 <= dp.y <= 0x4000_0000,
                    -0x4000_0000 <= dv.x <= 0x4000_0000,
                    -0x4000_0000 <= dv.y <= 0x4000_0000,
                    2 <= ma2 + mb2 <= 32,
                    300 <= rs <= 800,
            ;
        }
        let denom: i128 = ((ma2 + mb2) as i128) * ((rs as i128) * (rs as i128));
        let qx = clamp_imp(div_round((dp.x as i128) * dd, denom));
        let qy = clamp_imp(div_round((dp.y as i128) * dd, denom));
        proof {
            assert(1 <= (ma2 as int) * (mb2 as int) <= 256) by (nonlinear_arith)
                requires
                    1 <= ma2 <= 16,
                    1 <= mb2 <= 16,
            ;
        }
        let m: i64 = ma2 * mb2;
        let tx: i128;
        let ty: i128;
        if qx == 0 && qy == 0 {
            tx = 0;
            ty = 0;
        } else {
            proof {
                assert(0 <= (qx as int) * (qx as int) <= 0x2_0000_0000_0000_0000_0000
                    && 0 <= (qy as int) * (qy as int) <= 0x2_0000_0000_0000_0000_0000
                    && 0 < (qx as int) * (qx as int) + (qy as int) * (qy as int)
                    <= 0x4_0000_0000_0000_0000_0000
                    && 0 <= (m as int) * (m as int) <= 0x1_0000
                    && ((qx as int) * (qx as int) + (qy as int) * (qy as int)) * ((m as int)
                    * (m as int)) <= 0x1_0000_0000_0000_0000_0000_0000_0000)
                    by (nonlinear_arith)
                    requires
                        -0x100_0000_0000 <= qx <= 0x100_0000_0000,
                        -0x100_0000_0000 <= qy <= 0x100_0000_0000,
                        qx != 0 || qy != 0,
                        1 <= m <= 256,
                ;
            }
            let qq: i128 = (qx as i128) * (qx as i128) + (qy as i128) * (qy as i128);
            if qq * ((m as i128) * (m as i128)) < 40000 {
                let nq = isqrt(qq as u128);
                proof {
                    assert((nq as int) * (nq as int) <= (qq as int));
                    assert(1 <= (nq as int) && (nq as int) <= 0x8000_0000_0000)
                        by (nonlinear_arith)
                        requires
                            (nq as int) * (nq as int) <= (qq as int),
                            (qq as int) < ((nq as int) + 1) * ((nq as int) + 1),
                            0 < (qq as int) <= 0x4_0000_0000_0000_0000_0000,
                            (nq as int) >= 0,
                    ;
                }
                proof {
                    assert(0 < (nq as int) * (m as int) <= 0x80_0000_0000_0000)
                        by (nonlinear_arith)
                        requires
                            1 <= (nq as int) <= 0x8000_0000_0000,
                            1 <= m <= 256,
                    ;
                }
                let gden: i128 = (nq as i128) * (m as i128);
                let gx = div_round(200 * (qx as i128), gden);
                let gy = div_round(200 * (qy as i128), gden);
                tx = (qx as i128) + gx;
                ty = (qy as i128) + gy;
            } else {
                tx = 2 * (qx as i128);
                ty = 2 * (qy as i128);
            }
        }
        proof {
            assert(-0x1_0000_0000_0000_0000 <= tx * (mb2 as int) <= 0x1_0000_0000_0000_0000
                && -0x1_0000_0000_0000_0000 <= ty * (mb2 as int) <= 0x1_0000_0000_0000_0000
                && -0x1_0000_0000_0000_0000 <= tx * (ma2 as int) <= 0x1_0000_0000_0000_0000
                && -0x1_0000_0000_0000_0000 <= ty * (ma2 as int) <= 0x1_0000_0000_0000_0000)
                by (nonlinear_arith)
                requires
                    -0x400_0000_0000_0000 <= tx <= 0x400_0000_0000_0000,
                    -0x400_0000_0000_0000 <= ty <= 0x400_0000_0000_0000,
                    1 <= ma2 <= 16,
                    1 <= mb2 <= 16,
            ;
        }
        let mut ea2 = ea;
        ea2.vel.x = clamp_coord(ea.vel.x as i128 + tx * (mb2 as i128));
        ea2.vel.y = clamp_coord(ea.vel.y as i128 + ty * (mb2 as i128));
        let mut eb2 = eb;
        eb2.vel.x = clamp_coord(eb.vel.x as i128 - tx * (ma2 as i128));
        eb2.vel.y = clamp_coord(eb.vel.y as i128 - ty * (ma2 as i128));
        if ea.is_a(EntityType::Wizard) && eb.is_a(EntityType::Bludger) {
            eb2.linked = Some(eaid);
        }
        self.entities.set(eaid, ea2);
        self.entities.set(ebid, eb2);
    }

    /// Resolves a rebound off a goal post: the pairwise impulse form
    /// against the immovable post, raw application plus floor-corrected
    /// application.
    pub fn pole_rebound_response(&mut self, id: usize, pid: usize)
        requires
            id < old(self).entities.inner.len(),
            pid < 4,
            old(self).entities.inner[id as int].in_range(),
        ensures
            *final(self) == (TurnState {
                entities: EntityStore {
                    inner: final(self).entities.inner,
                    ..old(self).entities
                },
                ..*old(self)
            }),
            final(self).entities.inner@ == old(self).entities.inner@.update(
                id as int,
                (Entity {
                    vel: pole_new_vel(old(self).entities.inner[id as int], pid as int),
                    ..old(self).entities.inner[id as int]
                }),
            ),
    {
        let e = self.entities.get(id);
        let pole = pole_position(pid);
        let rs = POLE_RADIUS + e.kind.radius();
        let dp = pole.sub(e.pos);
        let dv = e.vel.neg();
        let dd = dp.dot(dv);
        proof {
            assert(-0x4000_0000_0000_0000 <= (dd as int) <= 0x4000_0000_0000_0000
                && -0x1_0000_0000_0000_0000_0000_0000 <= dp.x * (dd as int)
                <= 0x1_0000_0000_0000_0000_0000_0000
                && -0x1_0000_0000_0000_0000_0000_0000 <= dp.y * (dd as int)
                <= 0x1_0000_0000_0000_0000_0000_0000
                && 0 < (rs as int) * (rs as int) <= 0x10_0000)
                by (nonlinear_arith)
                requires
                    (dd as int) == dp.x * dv.x + dp.y * dv.y,
                    -0x4000_0000 <= dp.x <= 0x4000_0000,
                    -0x4000_0000 <= dp.y <= 0x4000_0000,
                    -0x4000_0000 <= dv.x <= 0x4000_0000,
                    -0x4000_0000 <= dv.y <= 0x4000_0000,
                    450 <= rs <= 700,
            ;
        }
        let denom: i128 = (rs as i128) * (rs as i128);
        let qx = clamp_imp(div_round((dp.x as i128) * dd, denom));
        let qy = clamp_imp(div_round((dp.y as i128) * dd, denom));
        let tx: i128;
        let ty: i128;
        if qx == 0 && qy == 0 {
            tx = 0;
            ty = 0;
        } else {
            proof {
                assert(0 <= (qx as int) * (qx as int) <= 0x2_0000_0000_0000_0000_0000
                    && 0 <= (qy as int) * (qy as int) <= 0x2_0000_0000_0000_0000_0000
                    && 0 < (qx as int) * (qx as int) + (qy as int) * (qy as int)
                    <= 0x4_0000_0000_0000_0000_0000)
                    by (nonlinear_arith)
                    requires
                        -0x100_0000_0000 <= qx <= 0x100_0000_0000,
                        -0x100_0000_0000 <= qy <= 0x100_0000_0000,
                        qx != 0 || qy != 0,
                ;
            }
            let qq: i128 = (qx as i128) * (qx as i128) + (qy as i128) * (qy as i128);
            if qq < 10000 {
                let nq = isqrt(qq as u128);
                proof {
                    assert((nq as int) * (nq as int) <= (qq as int));
                    assert(1 <= (nq as int) && (nq as int) <= 0x8000_0000_0000)
                        by (nonlinear_arith)
                        requires
                            (nq as int) * (nq as int) <= (qq as int),
                            (qq as int) < ((nq as int) + 1) * ((nq as int) + 1),
                            0 < (qq as int) <= 0x4_0000_0000_0000_0000_0000,
                            (nq as int) >= 0,
                    ;
                }
                let gx = div_round(100 * (qx as i128), nq as i128);
                let gy = div_round(100 * (qy as i128), nq as i128);
                tx = (qx as i128) + gx;
                ty = (qy as i128) + gy;
            } else {
                tx = 2 * (qx as i128);
                ty = 2 * (qy as i128);
            }
        }
        let mut e2 = e;
        e2.vel.x = clamp_coord(e.vel.x as i128 + tx);
        e2.vel.y = clamp_coord(e.vel.y as i128 + ty);
        self.entities.set(id, e2);
    }
}

} // verus!
