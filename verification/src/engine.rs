//! The turn engine: the staged advance of one full turn — cooldown decay,
//! thrust and release, bludger targeting, spell forces, the event-ordered
//! collision loop, friction, scoring, pickup finalization, spell casting
//! and the win condition.

use vstd::prelude::*;
use vstd::pervasive::VecAdditionalExecFns;
use crate::consts::{
    BORDER_LEFT_X, BORDER_RIGHT_X, MANA_CAP, LAST_ROUND, TIME_GRID, BLUDGER_THRUST, EVENT_CAP,
};
use crate::vec2::Vec2;
use crate::num::{rnd, cl_coord, sqrt_floor, div_round, clamp_coord};
use crate::entity::{Entity, EntityType, Faction};
use crate::store::{
    EntityStore, same_skeleton, lemma_layout_preserved, lemma_links_preserved,
};
use crate::state::TurnState;
use crate::motion::advanced_pos;

verus! {

/// A wizard's pickup cooldown after the per-turn decay.
pub open spec fn dec_timeout(t: int) -> int {
    if t > i64::MIN {
        t - 1
    } else {
        t
    }
}

/// A velocity component after one turn of friction: scaled by the kind's
/// factor, rounded to the nearest integer, saturated to the engine range.
pub open spec fn frictioned(v: int, fnum: int, fden: int) -> int {
    cl_coord(rnd(v * fnum, fden))
}

impl TurnState {
    /// Decrements every wizard's pickup cooldown by one turn.
    fn decay_timeouts(&mut self)
        requires
            old(self).wf(),
        ensures
            final(self).wf(),
            *final(self) == (TurnState {
                entities: EntityStore {
                    inner: final(self).entities.inner,
                    ..old(self).entities
                },
                ..*old(self)
            }),
            final(self).entities.inner.len() == old(self).entities.inner.len(),
            forall|i: int|
                0 <= i < 4 ==> #[trigger] final(self).entities.inner[i] == (Entity {
                    snaffle_timeout: dec_timeout(old(self).entities.inner[i].snaffle_timeout
                        as int) as i64,
                    ..old(self).entities.inner[i]
                }),
            forall|i: int|
                4 <= i < old(self).entities.inner.len()
                    ==> #[trigger] final(self).entities.inner[i] == old(self).entities.inner[i],
    {
        let ghost pre = self.entities;
        let mut i: usize = 0;
        while i < 4
            invariant
                i <= 4,
                self.entities.inner.len() == pre.inner.len(),
                self.entities.my_id == pre.my_id,
                pre.inner.len() >= 6,
                forall|k: int|
                    0 <= k < i ==> #[trigger] self.entities.inner[k] == (Entity {
                        snaffle_timeout: dec_timeout(pre.inner[k].snaffle_timeout as int) as i64,
                        ..pre.inner[k]
                    }),
                forall|k: int|
                    i <= k < pre.inner.len() ==> #[trigger] self.entities.inner[k]
                        == pre.inner[k],
                self.round == old(self).round,
                self.winner == old(self).winner,
                self.my_id == old(self).my_id,
                self.my_mp == old(self).my_mp,
                self.enemy_mp == old(self).enemy_mp,
                self.my_score == old(self).my_score,
                self.enemy_score == old(self).enemy_score,
                self.active_spells == old(self).active_spells,
                self.my_goal == old(self).my_goal,
                self.enemy_goal == old(self).enemy_goal,
            decreases 4 - i,
        {
            let mut e = self.entities.get(i);
            if e.snaffle_timeout > i64::MIN {
                e.snaffle_timeout = e.snaffle_timeout - 1;
            }
            self.entities.set(i, e);
            i = i + 1;
        }
        proof {
            lemma_layout_preserved(pre, self.entities);
            lemma_links_preserved(pre, self.entities);
            assert forall|k: int| 0 <= k < self.active_spells.len() implies
                #[trigger] self.spell_ok(k) by {
                assert(old(self).spell_ok(k));
            }
        }
    }

    /// Moves every entity along its velocity for `ticks` grid steps.
    fn advance_all(&mut self, ticks: u64)
        requires
            old(self).wf(),
            ticks <= TIME_GRID,
        ensures
            final(self).wf(),
            *final(self) == (TurnState {
                entities: EntityStore {
                    inner: final(self).entities.inner,
                    ..old(self).entities
                },
                ..*old(self)
            }),
            final(self).entities.inner.len() == old(self).entities.inner.len(),
            forall|i: int|
                0 <= i < old(self).entities.inner.len()
                    ==> #[trigger] final(self).entities.inner[i] == (Entity {
                    pos: advanced_pos(old(self).entities.inner[i], ticks as int),
                    ..old(self).entities.inner[i]
                }),
    {
        let n = self.entities.len();
        let ghost pre = self.entities;
        let mut k: usize = 0;
        while k < n
            invariant
                k <= n,
                ticks <= TIME_GRID,
                self.entities.inner.len() == n,
                self.entities.my_id == pre.my_id,
                pre.inner.len() == n,
                forall|t: int|
                    0 <= t < k ==> #[trigger] self.entities.inner[t] == (Entity {
                        pos: advanced_pos(pre.inner[t], ticks as int),
                        ..pre.inner[t]
                    }),
                forall|t: int|
                    k <= t < n ==> #[trigger] self.entities.inner[t] == pre.inner[t],
                self.round == old(self).round,
                self.winner == old(self).winner,
                self.my_id == old(self).my_id,
                self.my_mp == old(self).my_mp,
                self.enemy_mp == old(self).enemy_mp,
                self.my_score == old(self).my_score,
                self.enemy_score == old(self).enemy_score,
                self.active_spells == old(self).active_spells,
                self.my_goal == old(self).my_goal,
                self.enemy_goal == old(self).enemy_goal,
            decreases n - k,
        {
            self.fast_forward(k, ticks);
            k = k + 1;
        }
        proof {
            lemma_layout_preserved(pre, self.entities);
            lemma_links_preserved(pre, self.entities);
            assert forall|k2: int| 0 <= k2 < self.active_spells.len() implies
                #[trigger] self.spell_ok(k2) by {
                assert(old(self).spell_ok(k2));
            }
        }
    }

    /// Applies one turn of friction: every entity's velocity is scaled by
    /// its kind's factor and rounded.
    fn apply_friction(&mut self)
        requires
            old(self).wf(),
        ensures
            final(self).wf(),
            *final(self) == (TurnState {
                entities: EntityStore {
                    inner: final(self).entities.inner,
                    ..old(self).entities
                },
                ..*old(self)
            }),
            final(self).entities.inner.len() == old(self).entities.inner.len(),
            forall|i: int|
                0 <= i < old(self).entities.inner.len()
                    ==> #[trigger] final(self).entities.inner[i] == (Entity {
                    vel: Vec2 {
                        x: frictioned(
                            old(self).entities.inner[i].vel.x as int,
                            old(self).entities.inner[i].kind.friction_num_spec(),
                            old(self).entities.inner[i].kind.friction_den_spec(),
                        ) as i64,
                        y: frictioned(
                            old(self).entities.inner[i].vel.y as int,
                            old(self).entities.inner[i].kind.friction_num_spec(),
                            old(self).entities.inner[i].kind.friction_den_spec(),
                        ) as i64,
                    },
                    ..old(self).entities.inner[i]
                }),
    {
        let n = self.entities.len();
        let ghost pre = self.entities;
        let mut k: usize = 0;
        while k < n
            invariant
                k <= n,
                self.entities.inner.len() == n,
                self.entities.my_id == pre.my_id,
                pre.inner.len() == n,
                forall|t: int|
                    0 <= t < k ==> #[trigger] self.entities.inner[t] == (Entity {
                        vel: Vec2 {
                            x: frictioned(
                                pre.inner[t].vel.x as int,
                                pre.inner[t].kind.friction_num_spec(),
                                pre.inner[t].kind.friction_den_spec(),
                            ) as i64,
                            y: frictioned(
                                pre.inner[t].vel.y as int,
                                pre.inner[t].kind.friction_num_spec(),
                                pre.inner[t].kind.friction_den_spec(),
                            ) as i64,
                        },
                        ..pre.inner[t]
                    }),
                forall|t: int|
                    k <= t < n ==> #[trigger] self.entities.inner[t] == pre.inner[t],
                self.round == old(self).round,
                self.winner == old(self).winner,
                self.my_id == old(self).my_id,
                self.my_mp == old(self).my_mp,
                self.enemy_mp == old(self).enemy_mp,
                self.my_score == old(self).my_score,
                self.enemy_score == old(self).enemy_score,
                self.active_spells == old(self).active_spells,
                self.my_goal == old(self).my_goal,
                self.enemy_goal == old(self).enemy_goal,
            decreases n - k,
        {
            let mut e = self.entities.get(k);
            let (fnum, fden) = e.kind.friction();
            proof {
                assert(-0x100_0000_0000_0000_0000 <= (e.vel.x as int) * (fnum as int)
                    <= 0x100_0000_0000_0000_0000
                    && -0x100_0000_0000_0000_0000 <= (e.vel.y as int) * (fnum as int)
                    <= 0x100_0000_0000_0000_0000)
                    by (nonlinear_arith)
                    requires
                        -0x8000_0000_0000_0000 <= e.vel.x < 0x8000_0000_0000_0000,
                        -0x8000_0000_0000_0000 <= e.vel.y < 0x8000_0000_0000_0000,
                        3 <= fnum <= 9,
                ;
            }
            let vx = div_round((e.vel.x as i128) * (fnum as i128), fden as i128);
            let vy = div_round((e.vel.y as i128) * (fnum as i128), fden as i128);
            e.vel.x = clamp_coord(vx);
            e.vel.y = clamp_coord(vy);
            self.entities.set(k, e);
            k = k + 1;
        }
        proof {
            lemma_layout_preserved(pre, self.entities);
            lemma_links_preserved(pre, self.entities);
            assert forall|k2: int| 0 <= k2 < self.active_spells.len() implies
                #[trigger] self.spell_ok(k2) by {
                assert(old(self).spell_ok(k2));
            }
        }
    }
}



/// One side's whole casting stage: both wizards' `cast_step`s applied in
/// slot order to the ledger and that side's mana; nothing else changes.
pub open spec fn side_casts_applied(
    a: TurnState,
    b: TurnState,
    actions: Seq<crate::actions::Action>,
    start: int,
    my_side: bool,
) -> bool {
    let mp0: int = if my_side {
        a.my_mp as int
    } else {
        a.enemy_mp as int
    };
    let (l1, m1) = cast_step(a.active_spells@, mp0, a.round, start, actions[start % 2]);
    let (l2, m2) = cast_step(l1, m1, a.round, start + 1, actions[(start + 1) % 2]);
    &&& b.active_spells@ == l2
    &&& (if my_side {
        b.my_mp == m2 && b.enemy_mp == a.enemy_mp
    } else {
        b.enemy_mp == m2 && b.my_mp == a.my_mp
    })
}

/// The ledger and one side's mana after the wizard in slot `wid` acts: a
/// cast action with enough mana deducts exactly the kind's cost and
/// records the effect, Petrificus at the front of the ledger, everything
/// else appended; any other action, or too little mana, changes nothing.
pub open spec fn cast_step(
    ledger: Seq<crate::spells::Spell>,
    mp: int,
    round: u64,
    wid: int,
    a: crate::actions::Action,
) -> (Seq<crate::spells::Spell>, int) {
    match a {
        crate::actions::Action::Spell(kind, eid) => if mp >= kind.cost_spec() {
            let sp = crate::spells::Spell {
                caster_id: wid as usize,
                target_id: eid,
                kind,
                casted: round,
                duration: kind.duration_spec() as u64,
            };
            if kind == crate::spells::SpellType::Petrificus {
                (seq![sp] + ledger, mp - kind.cost_spec())
            } else {
                (ledger.push(sp), mp - kind.cost_spec())
            }
        } else {
            (ledger, mp)
        },
        _ => (ledger, mp),
    }
}

impl TurnState {
    /// Applies one side's actions to its two wizards: a wizard holding a
    /// snaffle releases it in place with the wizard's velocity — thrown
    /// toward the throw target when the action is a throw, with no extra
    /// force otherwise — and a moving wizard accelerates toward its move
    /// target.
    fn apply_wizard_actions(&mut self, actions: &Vec<crate::actions::Action>, start: usize)
        requires
            old(self).wf(),
            start == 0 || start == 2,
            actions.len() == 2,
            forall|k: int| 0 <= k < 2 ==> (#[trigger] actions[k]).wf(),
        ensures
            final(self).wf(),
            same_skeleton(old(self).entities, final(self).entities),
            forall|k: int|
                start <= k < start + 2 ==> (#[trigger] final(self).entities.inner[k]).linked
                    is None,
            forall|k: int|
                0 <= k < 4 && !(start <= k < start + 2)
                    ==> (#[trigger] final(self).entities.inner[k]).linked
                    == old(self).entities.inner[k].linked,
            forall|k: int|
                0 <= k < old(self).entities.inner.len()
                    ==> (#[trigger] final(self).entities.inner[k]).dead
                    == old(self).entities.inner[k].dead
                    && final(self).entities.inner[k].snaffle_timeout
                    == old(self).entities.inner[k].snaffle_timeout,
            final(self).round == old(self).round,
            final(self).winner == old(self).winner,
            final(self).my_id == old(self).my_id,
            final(self).my_mp == old(self).my_mp,
            final(self).enemy_mp == old(self).enemy_mp,
            final(self).my_score == old(self).my_score,
            final(self).enemy_score == old(self).enemy_score,
            final(self).active_spells == old(self).active_spells,
            final(self).my_goal == old(self).my_goal,
            final(self).enemy_goal == old(self).enemy_goal,
    {
        let ghost pre = *old(self);
        let mut step: usize = 0;
        while step < 2
            invariant
                step <= 2,
                start == 0 || start == 2,
                actions.len() == 2,
                forall|k: int| 0 <= k < 2 ==> (#[trigger] actions[k]).wf(),
                pre.wf(),
                self.wf(),
                same_skeleton(pre.entities, self.entities),
                forall|k: int|
                    start <= k < start + step ==> (#[trigger] self.entities.inner[k]).linked
                        is None,
                forall|k: int|
                    0 <= k < 4 && !(start <= k < start + step)
                        ==> (#[trigger] self.entities.inner[k]).linked
                        == pre.entities.inner[k].linked,
                forall|k: int|
                    0 <= k < pre.entities.inner.len()
                        ==> (#[trigger] self.entities.inner[k]).dead
                        == pre.entities.inner[k].dead
                        && self.entities.inner[k].snaffle_timeout
                        == pre.entities.inner[k].snaffle_timeout,
                self.round == pre.round,
                self.winner == pre.winner,
                self.my_id == pre.my_id,
                self.my_mp == pre.my_mp,
                self.enemy_mp == pre.enemy_mp,
                self.my_score == pre.my_score,
                self.enemy_score == pre.enemy_score,
                self.active_spells == pre.active_spells,
                self.my_goal == pre.my_goal,
                self.enemy_goal == pre.enemy_goal,
            decreases 2 - step,
        {
            let i = start + step;
            let w = self.entities.get(i);
            let act = actions[w.sub_id];
            let ghost before_release = self.entities;
            match w.linked {
                Option::Some(sid) => {
                    proof {
                        assert(self.entities.link_ok(i as int));
                    }
                    let mut s = self.entities.get(sid);
                    s.pos = w.pos;
                    s.vel = w.vel;
                    s.linked = None;
                    if let crate::actions::Action::Throw(tg, power) = act {
                        s.apply_thrust_towards(tg, power);
                    }
                    let mut w2 = w;
                    w2.linked = None;
                    self.entities.set(i, w2);
                    self.entities.set(sid, s);
                    proof {
                        crate::store::lemma_links_unlink(
                            before_release,
                            self.entities,
                            i as int,
                            sid as int,
                        );
                        lemma_layout_preserved(before_release, self.entities);
                        assert forall|k2: int| 0 <= k2 < self.active_spells.len() implies
                            #[trigger] self.spell_ok(k2) by {
                            assert(pre.spell_ok(k2));
                        }
                    }
                },
                Option::None => {},
            }
            if let crate::actions::Action::Move(tg, thrust) = act {
                let ghost before_thrust = self.entities;
                let mut w3 = self.entities.get(i);
                w3.apply_thrust_towards(tg, thrust);
                self.entities.set(i, w3);
                proof {
                    lemma_layout_preserved(before_thrust, self.entities);
                    lemma_links_preserved(before_thrust, self.entities);
                    assert forall|k2: int| 0 <= k2 < self.active_spells.len() implies
                        #[trigger] self.spell_ok(k2) by {
                        assert(pre.spell_ok(k2));
                    }
                }
            }
            step = step + 1;
        }
    }

    /// Every bludger selects the nearest wizard other than the one it is
    /// already homing on, and accelerates toward it at the fixed bludger
    /// thrust.
    fn bludger_targeting(&mut self)
        requires
            old(self).wf(),
        ensures
            final(self).wf(),
            same_skeleton(old(self).entities, final(self).entities),
            forall|k: int|
                0 <= k < old(self).entities.inner.len()
                    ==> (#[trigger] final(self).entities.inner[k]).linked
                    == old(self).entities.inner[k].linked
                    && final(self).entities.inner[k].dead == old(self).entities.inner[k].dead
                    && final(self).entities.inner[k].snaffle_timeout
                    == old(self).entities.inner[k].snaffle_timeout,
            final(self).round == old(self).round,
            final(self).winner == old(self).winner,
            final(self).my_id == old(self).my_id,
            final(self).my_mp == old(self).my_mp,
            final(self).enemy_mp == old(self).enemy_mp,
            final(self).my_score == old(self).my_score,
            final(self).enemy_score == old(self).enemy_score,
            final(self).active_spells == old(self).active_spells,
            final(self).my_goal == old(self).my_goal,
            final(self).enemy_goal == old(self).enemy_goal,
    {
        let ghost pre = *old(self);
        let n = self.entities.len();
        let mut b_idx: usize = n - 2;
        while b_idx < n
            invariant
                n == self.entities.inner.len(),
                n >= 6,
                b_idx >= n - 2,
                pre.wf(),
                self.wf(),
                same_skeleton(pre.entities, self.entities),
                forall|k: int|
                    0 <= k < pre.entities.inner.len()
                        ==> (#[trigger] self.entities.inner[k]).linked
                        == pre.entities.inner[k].linked
                        && self.entities.inner[k].dead == pre.entities.inner[k].dead
                        && self.entities.inner[k].snaffle_timeout
                        == pre.entities.inner[k].snaffle_timeout,
                self.round == pre.round,
                self.winner == pre.winner,
                self.my_id == pre.my_id,
                self.my_mp == pre.my_mp,
                self.enemy_mp == pre.enemy_mp,
                self.my_score == pre.my_score,
                self.enemy_score == pre.enemy_score,
                self.active_spells == pre.active_spells,
                self.my_goal == pre.my_goal,
                self.enemy_goal == pre.enemy_goal,
            decreases n - b_idx,
        {
            let b = self.entities.get(b_idx);
            let mut closest: Option<(usize, i128)> = None;
            let mut wid: usize = 0;
            while wid < 4
                invariant
                    wid <= 4,
                    n == self.entities.inner.len(),
                    n >= 6,
                    b_idx < n,
                    b == self.entities.inner[b_idx as int],
                    self.wf(),
                    match closest {
                        Option::Some((cw, _)) => cw < 4,
                        Option::None => wid == 0 || (wid == 1 && b.linked == Some(0usize)),
                    },
                decreases 4 - wid,
            {
                let excluded = match b.linked {
                    Option::Some(l) => l == wid,
                    Option::None => false,
                };
                if !excluded {
                    let wpos = self.entities.get(wid).pos;
                    let dist = wpos.distance_sq(b.pos);
                    closest = match closest {
                        Option::Some((cw, cd)) => {
                            if dist < cd {
                                Some((wid, dist))
                            } else {
                                Some((cw, cd))
                            }
                        },
                        Option::None => Some((wid, dist)),
                    };
                }
                wid = wid + 1;
            }
            let (best_wid, _) = closest.unwrap();
            let tg = self.entities.get(best_wid).pos;
            let ghost before_thrust = self.entities;
            let mut b2 = self.entities.get(b_idx);
            b2.apply_thrust_towards(tg, BLUDGER_THRUST);
            self.entities.set(b_idx, b2);
            proof {
                lemma_layout_preserved(before_thrust, self.entities);
                lemma_links_preserved(before_thrust, self.entities);
                assert forall|k2: int| 0 <= k2 < self.active_spells.len() implies
                    #[trigger] self.spell_ok(k2) by {
                    assert(pre.spell_ok(k2));
                }
            }
            b_idx = b_idx + 1;
        }
    }
}


/// The velocity of a spell's target after one radial force application:
/// pushed away from (or pulled toward) the caster with magnitude
/// `power_num` divided by the squared distance, capped at 1000, and no
/// force at all at distance zero.
pub open spec fn radial_new_vel(e: Entity, cpos: Vec2, power_num: int, away: bool) -> Vec2 {
    let dx = e.pos.x - cpos.x;
    let dy = e.pos.y - cpos.y;
    let ds = dx * dx + dy * dy;
    if ds == 0 {
        e.vel
    } else {
        let n = sqrt_floor(ds);
        let pw = if 1000 * ds < power_num {
            1000int
        } else {
            rnd(power_num, ds)
        };
        let sx = if away {
            2 * dx * pw
        } else {
            -(2 * dx * pw)
        };
        let sy = if away {
            2 * dy * pw
        } else {
            -(2 * dy * pw)
        };
        Vec2 {
            x: cl_coord(e.vel.x + rnd(sx, n * e.kind.mass_x2_spec())) as i64,
            y: cl_coord(e.vel.y + rnd(sy, n * e.kind.mass_x2_spec())) as i64,
        }
    }
}

/// A snaffle that has crossed the right border line and is still in play.
pub open spec fn is_goal_right(e: Entity) -> bool {
    e.kind == EntityType::Snaffle && !e.dead && e.pos.x >= BORDER_RIGHT_X
}

/// A snaffle that has crossed the left border line and is still in play.
pub open spec fn is_goal_left(e: Entity) -> bool {
    e.kind == EntityType::Snaffle && !e.dead && e.pos.x <= BORDER_LEFT_X
}

/// How many of the first `upto` entities are snaffles scoring on the given
/// side this turn.
pub open spec fn count_goals(s: Seq<Entity>, right: bool, upto: int) -> int
    decreases upto,
{
    if upto <= 0 {
        0
    } else {
        count_goals(s, right, upto - 1) + if right && is_goal_right(s[upto - 1]) {
            1int
        } else if !right && is_goal_left(s[upto - 1]) {
            1int
        } else {
            0int
        }
    }
}


/// The goal count over any prefix is between zero and the prefix length.
pub proof fn lemma_count_goals_bounds(s: Seq<Entity>, right: bool, upto: int)
    ensures
        0 <= count_goals(s, right, upto),
        count_goals(s, right, upto) <= (if upto >= 0 { upto } else { 0 }),
    decreases (if upto >= 0 { upto } else { 0 }),
{
    if upto > 0 {
        lemma_count_goals_bounds(s, right, upto - 1);
    }
}


/// The entities after the recorded pickups are finalized in order: each
/// picked snaffle snaps to its wizard's position and velocity at that
/// point of the pass.
pub open spec fn pickups_snapped(
    ents: Seq<Entity>,
    collected: Seq<(usize, usize)>,
    upto: int,
) -> Seq<Entity>
    decreases upto,
{
    if upto <= 0 {
        ents
    } else {
        let prev = pickups_snapped(ents, collected, upto - 1);
        let (w, s2) = collected[upto - 1];
        prev.update(
            s2 as int,
            (Entity { pos: prev[w as int].pos, vel: prev[w as int].vel, ..prev[s2 as int] }),
        )
    }
}


/// The effect of one active spell on the entities and on its own ledger
/// entry: Flipendo pushes its target away from the caster, Accio pulls it
/// toward the caster (and restarts its own clock when the two coincide),
/// Petrificus zeroes the target's velocity, Obliviate does nothing.
pub open spec fn force_step(ents: Seq<Entity>, sp: crate::spells::Spell) -> (
    Seq<Entity>,
    crate::spells::Spell,
) {
    let t = sp.target_id as int;
    let c = sp.caster_id as int;
    match sp.kind {
        crate::spells::SpellType::Flipendo => (
            ents.update(
                t,
                (Entity {
                    vel: radial_new_vel(ents[t], ents[c].pos, 6_000_000_000, true),
                    ..ents[t]
                }),
            ),
            sp,
        ),
        crate::spells::SpellType::Accio => (
            ents.update(
                t,
                (Entity {
                    vel: radial_new_vel(ents[t], ents[c].pos, 3_000_000_000, false),
                    ..ents[t]
                }),
            ),
            if ents[t].pos == ents[c].pos {
                crate::spells::Spell { casted: 0u64, ..sp }
            } else {
                sp
            },
        ),
        crate::spells::SpellType::Petrificus => (
            ents.update(
                t,
                (Entity { vel: Vec2 { x: 0int as i64, y: 0int as i64 }, ..ents[t] }),
            ),
            sp,
        ),
        crate::spells::SpellType::Obliviate => (ents, sp),
    }
}

/// The entities and ledger after the first `upto` active effects have been
/// applied in ledger order.
pub open spec fn forces_applied(
    ents: Seq<Entity>,
    ledger: Seq<crate::spells::Spell>,
    upto: int,
) -> (Seq<Entity>, Seq<crate::spells::Spell>)
    decreases upto,
{
    if upto <= 0 {
        (ents, ledger)
    } else {
        let (e1, l1) = forces_applied(ents, ledger, upto - 1);
        let (e2, sp2) = force_step(e1, l1[upto - 1]);
        (e2, l1.update(upto - 1, sp2))
    }
}

/// The ledger entries of the first `upto` slots that are still live this
/// round: an effect stays while `round - casted < duration`.
pub open spec fn retained_prefix(
    ledger: Seq<crate::spells::Spell>,
    round: u64,
    upto: int,
) -> Seq<crate::spells::Spell>
    decreases upto,
{
    if upto <= 0 {
        Seq::empty()
    } else {
        let prev = retained_prefix(ledger, round, upto - 1);
        let sp = ledger[upto - 1];
        if round - sp.casted < sp.duration {
            prev.push(sp)
        } else {
            prev
        }
    }
}

impl TurnState {
    /// Applies one radial spell force to `target` from the position of
    /// `caster`, and reports whether the two coincide (in which case no
    /// force is applied).
    fn radial_force(&mut self, target: usize, caster: usize, power_num: i64, away: bool) -> (zero:
        bool)
        requires
            old(self).wf(),
            target < old(self).entities.inner.len(),
            caster < old(self).entities.inner.len(),
            1000 <= power_num <= 0x2_0000_0000_0000,
        ensures
            final(self).wf(),
            same_skeleton(old(self).entities, final(self).entities),
            zero == (old(self).entities.inner[target as int].pos
                == old(self).entities.inner[caster as int].pos),
            final(self).entities.inner[target as int] == (Entity {
                vel: radial_new_vel(
                    old(self).entities.inner[target as int],
                    old(self).entities.inner[caster as int].pos,
                    power_num as int,
                    away,
                ),
                ..old(self).entities.inner[target as int]
            }),
            forall|k: int|
                0 <= k < old(self).entities.inner.len() && k != target
                    ==> #[trigger] final(self).entities.inner[k] == old(self).entities.inner[k],
            final(self).round == old(self).round,
            final(self).winner == old(self).winner,
            final(self).my_id == old(self).my_id,
            final(self).my_mp == old(self).my_mp,
            final(self).enemy_mp == old(self).enemy_mp,
            final(self).my_score == old(self).my_score,
            final(self).enemy_score == old(self).enemy_score,
            final(self).active_spells == old(self).active_spells,
            final(self).my_goal == old(self).my_goal,
            final(self).enemy_goal == old(self).enemy_goal,
    {
        let e = self.entities.get(target);
        let c = self.entities.get(caster);
        let d = e.pos.sub(c.pos);
        let ds = d.len_sq();
        proof {
            assert((d.x == 0 && d.y == 0 ==> d.x * d.x + d.y * d.y == 0) && ((d.x != 0 || d.y
                != 0) ==> d.x * d.x + d.y * d.y > 0) && 0 <= d.x * d.x + d.y * d.y
                <= 0x2000_0000_0000_0000) by (nonlinear_arith)
                requires
                    -0x4000_0000 <= d.x <= 0x4000_0000,
                    -0x4000_0000 <= d.y <= 0x4000_0000,
            ;
        }
        if ds == 0 {
            proof {
                assert(e.pos.x == c.pos.x && e.pos.y == c.pos.y);
                assert(e.pos == c.pos);
            }
            return true;
        }
        proof {
            assert(e.pos.x != c.pos.x || e.pos.y != c.pos.y);
            assert(!(e.pos == c.pos));
            assert(ds > 0);
        }
        let n = crate::num::isqrt(ds as u128);
        proof {
            assert((n as int) * (n as int) <= (ds as int));
            assert(1 <= (n as int) && (n as int) <= 0x1_0000_0000) by (nonlinear_arith)
                requires
                    (n as int) * (n as int) <= (ds as int),
                    (ds as int) < ((n as int) + 1) * ((n as int) + 1),
                    0 < (ds as int) <= 0x2000_0000_0000_0000,
                    (n as int) >= 0,
            ;
        }
        let capped: bool = 1000 * ds < power_num as i128;
        let pw: i128;
        if capped {
            pw = 1000;
        } else {
            pw = div_round(power_num as i128, ds);
            proof {
                crate::num::lemma_rnd_bound(power_num as int, ds as int);
            }
        }
        let m2 = e.kind.mass_x2();
        proof {
            assert(-0x1_0000_0000_0000_0000_0000_0000 <= 2 * (d.x as int) * (pw as int)
                <= 0x1_0000_0000_0000_0000_0000_0000
                && -0x1_0000_0000_0000_0000_0000_0000 <= 2 * (d.y as int) * (pw as int)
                <= 0x1_0000_0000_0000_0000_0000_0000
                && 0 < (n as int) * (m2 as int) <= 0x10_0000_0000)
                by (nonlinear_arith)
                requires
                    -0x4000_0000 <= d.x <= 0x4000_0000,
                    -0x4000_0000 <= d.y <= 0x4000_0000,
                    0 <= pw <= 0x2_0000_0000_0000,
                    1 <= (n as int) <= 0x1_0000_0000,
                    1 <= m2 <= 16,
            ;
        }
        let sx: i128 = if away {
            2 * (d.x as i128) * pw
        } else {
            -(2 * (d.x as i128) * pw)
        };
        let sy: i128 = if away {
            2 * (d.y as i128) * pw
        } else {
            -(2 * (d.y as i128) * pw)
        };
        let den: i128 = (n as i128) * (m2 as i128);
        let dvx = div_round(sx, den);
        let dvy = div_round(sy, den);
        let ghost before = self.entities;
        let mut e2 = e;
        e2.vel.x = clamp_coord(e.vel.x as i128 + dvx);
        e2.vel.y = clamp_coord(e.vel.y as i128 + dvy);
        self.entities.set(target, e2);
        proof {
            lemma_layout_preserved(before, self.entities);
            lemma_links_preserved(before, self.entities);
            assert forall|k2: int| 0 <= k2 < self.active_spells.len() implies
                #[trigger] self.spell_ok(k2) by {
                assert(old(self).spell_ok(k2));
            }
        }
        false
    }

    /// Applies every active effect to its target — Flipendo pushes, Accio
    /// pulls (restarting its clock at distance zero), Petrificus freezes,
    /// Obliviate does nothing — then drops the effects whose duration has
    /// elapsed.
    fn apply_spell_forces(&mut self)
        requires
            old(self).wf(),
        ensures
            final(self).wf(),
            same_skeleton(old(self).entities, final(self).entities),
            forall|k: int|
                0 <= k < old(self).entities.inner.len()
                    ==> (#[trigger] final(self).entities.inner[k]).linked
                    == old(self).entities.inner[k].linked
                    && final(self).entities.inner[k].dead == old(self).entities.inner[k].dead
                    && final(self).entities.inner[k].snaffle_timeout
                    == old(self).entities.inner[k].snaffle_timeout,
            final(self).round == old(self).round,
            final(self).winner == old(self).winner,
            final(self).my_id == old(self).my_id,
            final(self).my_mp == old(self).my_mp,
            final(self).enemy_mp == old(self).enemy_mp,
            final(self).my_score == old(self).my_score,
            final(self).enemy_score == old(self).enemy_score,
            final(self).my_goal == old(self).my_goal,
            final(self).enemy_goal == old(self).enemy_goal,
            ({
                let fl = forces_applied(
                    old(self).entities.inner@,
                    old(self).active_spells@,
                    old(self).active_spells.len() as int,
                );
                &&& final(self).entities.inner@ == fl.0
                &&& final(self).active_spells@ == retained_prefix(
                    fl.1,
                    old(self).round,
                    old(self).active_spells.len() as int,
                )
            }),
    {
        let ghost pre = *old(self);
        let total = self.active_spells.len();
        let mut idx: usize = 0;
        while idx < total
            invariant
                idx <= total,
                pre.wf(),
                self.wf(),
                self.active_spells.len() == total,
                same_skeleton(pre.entities, self.entities),
                forall|k: int|
                    0 <= k < pre.entities.inner.len()
                        ==> (#[trigger] self.entities.inner[k]).linked
                        == pre.entities.inner[k].linked
                        && self.entities.inner[k].dead == pre.entities.inner[k].dead
                        && self.entities.inner[k].snaffle_timeout
                        == pre.entities.inner[k].snaffle_timeout,
                self.round == pre.round,
                self.winner == pre.winner,
                self.my_id == pre.my_id,
                self.my_mp == pre.my_mp,
                self.enemy_mp == pre.enemy_mp,
                self.my_score == pre.my_score,
                self.enemy_score == pre.enemy_score,
                self.my_goal == pre.my_goal,
                self.enemy_goal == pre.enemy_goal,
                self.entities.inner@ == forces_applied(
                    pre.entities.inner@,
                    pre.active_spells@,
                    idx as int,
                ).0,
                self.active_spells@ == forces_applied(
                    pre.entities.inner@,
                    pre.active_spells@,
                    idx as int,
                ).1,
            decreases total - idx,
        {
            let sp = self.active_spells[idx];
            let ghost e1 = self.entities.inner@;
            let ghost l1 = self.active_spells@;
            proof {
                assert(self.spell_ok(idx as int));
            }
            match sp.kind {
                crate::spells::SpellType::Flipendo => {
                    let _ = self.radial_force(sp.target_id, sp.caster_id, 6_000_000_000, true);
                    proof {
                        assert(self.entities.inner@ =~= force_step(e1, sp).0);
                        assert(self.active_spells@ =~= l1.update(idx as int, force_step(e1, sp).1));
                    }
                },
                crate::spells::SpellType::Accio => {
                    let z = self.radial_force(sp.target_id, sp.caster_id, 3_000_000_000, false);
                    proof {
                        assert(self.entities.inner@ =~= force_step(e1, sp).0);
                    }
                    if z {
                        let ghost sb = *self;
                        let mut sp2 = sp;
                        sp2.casted = 0;
                        self.active_spells.set(idx, sp2);
                        proof {
                            assert forall|k2: int| 0 <= k2 < self.active_spells.len() implies
                                #[trigger] self.spell_ok(k2) by {
                                if k2 != idx as int {
                                    assert(sb.spell_ok(k2));
                                    assert(self.active_spells[k2] == sb.active_spells[k2]);
                                } else {
                                    assert(sb.spell_ok(idx as int));
                                }
                            }
                            assert(self.active_spells@ =~= l1.update(
                                idx as int,
                                force_step(e1, sp).1,
                            ));
                        }
                    } else {
                        proof {
                            assert(self.active_spells@ =~= l1.update(
                                idx as int,
                                force_step(e1, sp).1,
                            ));
                        }
                    }
                },
                crate::spells::SpellType::Petrificus => {
                    let ghost sb = *self;
                    let mut t = self.entities.get(sp.target_id);
                    t.vel = Vec2::zero();
                    self.entities.set(sp.target_id, t);
                    proof {
                        lemma_layout_preserved(sb.entities, self.entities);
                        lemma_links_preserved(sb.entities, self.entities);
                        assert forall|k2: int| 0 <= k2 < self.active_spells.len() implies
                            #[trigger] self.spell_ok(k2) by {
                            assert(sb.spell_ok(k2));
                        }
                        assert(self.entities.inner@ =~= force_step(e1, sp).0);
                        assert(self.active_spells@ =~= l1.update(idx as int, force_step(e1, sp).1));
                    }
                },
                crate::spells::SpellType::Obliviate => {
                    proof {
                        assert(self.entities.inner@ =~= force_step(e1, sp).0);
                        assert(self.active_spells@ =~= l1.update(idx as int, force_step(e1, sp).1));
                    }
                },
            }
            idx = idx + 1;
        }
        let mut kept: Vec<crate::spells::Spell> = Vec::new();
        let mut j: usize = 0;
        while j < total
            invariant
                j <= total,
                self.wf(),
                self.active_spells.len() == total,
                self.round == pre.round,
                kept@ == retained_prefix(self.active_spells@, pre.round, j as int),
                forall|k: int|
                    0 <= k < kept.len() ==> {
                        let s2 = #[trigger] kept[k];
                        &&& s2.caster_id < self.entities.inner.len()
                        &&& s2.target_id < self.entities.inner.len()
                        &&& s2.casted <= self.round
                        &&& s2.duration == s2.kind.duration_spec()
                    },
            decreases total - j,
        {
            let sp = self.active_spells[j];
            proof {
                assert(self.spell_ok(j as int));
            }
            if self.round - sp.casted < sp.duration {
                kept.push(sp);
            }
            j = j + 1;
        }
        self.active_spells = kept;
        proof {
            assert forall|k2: int| 0 <= k2 < self.active_spells.len() implies
                #[trigger] self.spell_ok(k2) by {}
        }
    }

    /// Marks every live snaffle beyond either border line as out of play
    /// and credits the point to the side owning the opposite goal.
    fn apply_scoring(&mut self, stats: &mut crate::state::Stats)
        requires
            old(self).wf(),
            0 <= old(self).my_score <= 0x1000_0000,
            0 <= old(self).enemy_score <= 0x1000_0000,
            0 <= old(stats).my_score_gain <= 0x1000_0000,
            0 <= old(stats).enemy_score_gain <= 0x1000_0000,
        ensures
            final(self).wf(),
            same_skeleton(old(self).entities, final(self).entities),
            forall|i: int|
                0 <= i < old(self).entities.inner.len()
                    ==> #[trigger] final(self).entities.inner[i] == (if 4 <= i
                    < old(self).entities.inner.len() - 2 && (is_goal_right(
                    old(self).entities.inner[i],
                ) || is_goal_left(old(self).entities.inner[i])) {
                    Entity { dead: true, ..old(self).entities.inner[i] }
                } else {
                    old(self).entities.inner[i]
                }),
            ({
                let gr = count_goals(
                    old(self).entities.inner@,
                    true,
                    old(self).entities.inner.len() as int,
                );
                let gl = count_goals(
                    old(self).entities.inner@,
                    false,
                    old(self).entities.inner.len() as int,
                );
                &&& final(self).my_score == old(self).my_score + (if old(self).my_id == 0 {
                    gr
                } else {
                    gl
                })
                &&& final(self).enemy_score == old(self).enemy_score + (if old(self).my_id == 0 {
                    gl
                } else {
                    gr
                })
                &&& final(stats).my_score_gain == old(stats).my_score_gain + (if old(self).my_id
                    == 0 {
                    gr
                } else {
                    gl
                })
                &&& final(stats).enemy_score_gain == old(stats).enemy_score_gain + (if old(
                    self,
                ).my_id == 0 {
                    gl
                } else {
                    gr
                })
            }),
            final(stats).collisions == old(stats).collisions,
            final(stats).collected == old(stats).collected,
            final(self).round == old(self).round,
            final(self).winner == old(self).winner,
            final(self).my_id == old(self).my_id,
            final(self).my_mp == old(self).my_mp,
            final(self).enemy_mp == old(self).enemy_mp,
            final(self).active_spells == old(self).active_spells,
            final(self).my_goal == old(self).my_goal,
            final(self).enemy_goal == old(self).enemy_goal,
    {
        let ghost pre = *old(self);
        let n = self.entities.len();
        proof {
            assert(forall|v: int|
                0 <= v < 4 ==> (#[trigger] pre.entities.inner@[v]).kind == EntityType::Wizard);
            assert(count_goals(pre.entities.inner@, true, 0) == 0);
            assert(count_goals(pre.entities.inner@, false, 0) == 0);
            assert(count_goals(pre.entities.inner@, true, 1) == 0);
            assert(count_goals(pre.entities.inner@, false, 1) == 0);
            assert(count_goals(pre.entities.inner@, true, 2) == 0);
            assert(count_goals(pre.entities.inner@, false, 2) == 0);
            assert(count_goals(pre.entities.inner@, true, 3) == 0);
            assert(count_goals(pre.entities.inner@, false, 3) == 0);
            assert(count_goals(pre.entities.inner@, true, 4) == 0);
            assert(count_goals(pre.entities.inner@, false, 4) == 0);
        }
        let mut i: usize = 4;
        while i < n - 2
            invariant
                4 <= i <= n - 2,
                n == self.entities.inner.len(),
                n >= 6,
                pre.wf(),
                pre.entities.inner.len() == n,
                0 <= pre.my_score <= 0x1000_0000,
                0 <= pre.enemy_score <= 0x1000_0000,
                0 <= old(stats).my_score_gain <= 0x1000_0000,
                0 <= old(stats).enemy_score_gain <= 0x1000_0000,
                self.wf(),
                forall|k: int|
                    0 <= k < n ==> #[trigger] self.entities.inner[k] == (if 4 <= k < i
                        && (is_goal_right(pre.entities.inner[k]) || is_goal_left(
                        pre.entities.inner[k],
                    )) {
                        Entity { dead: true, ..pre.entities.inner[k] }
                    } else {
                        pre.entities.inner[k]
                    }),
                self.my_score == pre.my_score + (if pre.my_id == 0 {
                    count_goals(pre.entities.inner@, true, i as int)
                } else {
                    count_goals(pre.entities.inner@, false, i as int)
                }),
                self.enemy_score == pre.enemy_score + (if pre.my_id == 0 {
                    count_goals(pre.entities.inner@, false, i as int)
                } else {
                    count_goals(pre.entities.inner@, true, i as int)
                }),
                stats.my_score_gain == old(stats).my_score_gain + (if pre.my_id == 0 {
                    count_goals(pre.entities.inner@, true, i as int)
                } else {
                    count_goals(pre.entities.inner@, false, i as int)
                }),
                stats.enemy_score_gain == old(stats).enemy_score_gain + (if pre.my_id == 0 {
                    count_goals(pre.entities.inner@, false, i as int)
                } else {
                    count_goals(pre.entities.inner@, true, i as int)
                }),
                0 <= count_goals(pre.entities.inner@, true, i as int) <= i,
                0 <= count_goals(pre.entities.inner@, false, i as int) <= i,
                stats.collisions == old(stats).collisions,
                stats.collected == old(stats).collected,
                self.round == pre.round,
                self.winner == pre.winner,
                self.my_id == pre.my_id,
                self.my_mp == pre.my_mp,
                self.enemy_mp == pre.enemy_mp,
                self.active_spells == pre.active_spells,
                self.my_goal == pre.my_goal,
                self.enemy_goal == pre.enemy_goal,
            decreases n - 2 - i,
        {
            let ghost before = self.entities;
            let e = self.entities.get(i);
            if !e.dead {
                if e.pos.x >= BORDER_RIGHT_X {
                    let mut e2 = e;
                    e2.dead = true;
                    self.entities.set(i, e2);
                    if self.my_id == 0 {
                        self.my_score = self.my_score + 1;
                        stats.my_score_gain = stats.my_score_gain + 1;
                    } else {
                        self.enemy_score = self.enemy_score + 1;
                        stats.enemy_score_gain = stats.enemy_score_gain + 1;
                    }
                } else if e.pos.x <= BORDER_LEFT_X {
                    let mut e2 = e;
                    e2.dead = true;
                    self.entities.set(i, e2);
                    if self.my_id == 0 {
                        self.enemy_score = self.enemy_score + 1;
                        stats.enemy_score_gain = stats.enemy_score_gain + 1;
                    } else {
                        self.my_score = self.my_score + 1;
                        stats.my_score_gain = stats.my_score_gain + 1;
                    }
                }
            }
            proof {
                lemma_layout_preserved(before, self.entities);
                lemma_links_preserved(before, self.entities);
                assert forall|k2: int| 0 <= k2 < self.active_spells.len() implies
                    #[trigger] self.spell_ok(k2) by {
                    assert(pre.spell_ok(k2));
                }
                assert(count_goals(pre.entities.inner@, true, i + 1) == count_goals(
                    pre.entities.inner@,
                    true,
                    i as int,
                ) + (if is_goal_right(pre.entities.inner@[i as int]) {
                    1int
                } else {
                    0int
                }));
                assert(count_goals(pre.entities.inner@, false, i + 1) == count_goals(
                    pre.entities.inner@,
                    false,
                    i as int,
                ) + (if is_goal_left(pre.entities.inner@[i as int]) {
                    1int
                } else {
                    0int
                }));
            }
            i = i + 1;
        }
        proof {
            assert(count_goals(pre.entities.inner@, true, n - 1) == count_goals(
                pre.entities.inner@,
                true,
                n - 2,
            ));
            assert(count_goals(pre.entities.inner@, true, n as int) == count_goals(
                pre.entities.inner@,
                true,
                n - 1,
            ));
            assert(count_goals(pre.entities.inner@, false, n - 1) == count_goals(
                pre.entities.inner@,
                false,
                n - 2,
            ));
            assert(count_goals(pre.entities.inner@, false, n as int) == count_goals(
                pre.entities.inner@,
                false,
                n - 1,
            ));
        }
    }

    /// Snaffles picked up during the collision loop snap to their wizard's
    /// exact position and velocity.
    fn finalize_pickups(&mut self, stats: &crate::state::Stats)
        requires
            old(self).wf(),
            forall|k: int|
                0 <= k < stats.collected.len() ==> {
                    let (w, s2) = #[trigger] stats.collected[k];
                    w < old(self).entities.inner.len() && s2 < old(self).entities.inner.len()
                        && w != s2
                },
        ensures
            final(self).wf(),
            same_skeleton(old(self).entities, final(self).entities),
            final(self).entities.inner@ == pickups_snapped(
                old(self).entities.inner@,
                stats.collected@,
                stats.collected.len() as int,
            ),
            final(self).round == old(self).round,
            final(self).winner == old(self).winner,
            final(self).my_id == old(self).my_id,
            final(self).my_mp == old(self).my_mp,
            final(self).enemy_mp == old(self).enemy_mp,
            final(self).my_score == old(self).my_score,
            final(self).enemy_score == old(self).enemy_score,
            final(self).active_spells == old(self).active_spells,
            final(self).my_goal == old(self).my_goal,
            final(self).enemy_goal == old(self).enemy_goal,
    {
        let ghost pre = *old(self);
        let total = stats.collected.len();
        let mut k: usize = 0;
        while k < total
            invariant
                k <= total,
                total == stats.collected.len(),
                pre.wf(),
                self.wf(),
                pre.entities.inner.len() == self.entities.inner.len(),
                forall|k2: int|
                    0 <= k2 < stats.collected.len() ==> {
                        let (w, s2) = #[trigger] stats.collected[k2];
                        w < pre.entities.inner.len() && s2 < pre.entities.inner.len() && w != s2
                    },
                same_skeleton(pre.entities, self.entities),
                self.entities.inner@ == pickups_snapped(
                    pre.entities.inner@,
                    stats.collected@,
                    k as int,
                ),
                self.round == pre.round,
                self.winner == pre.winner,
                self.my_id == pre.my_id,
                self.my_mp == pre.my_mp,
                self.enemy_mp == pre.enemy_mp,
                self.my_score == pre.my_score,
                self.enemy_score == pre.enemy_score,
                self.active_spells == pre.active_spells,
                self.my_goal == pre.my_goal,
                self.enemy_goal == pre.enemy_goal,
            decreases total - k,
        {
            let (w, s2) = stats.collected[k];
            let ghost before = self.entities;
            let wiz = self.entities.get(w);
            let mut sn = self.entities.get(s2);
            sn.pos = wiz.pos;
            sn.vel = wiz.vel;
            self.entities.set(s2, sn);
            proof {
                lemma_layout_preserved(before, self.entities);
                lemma_links_preserved(before, self.entities);
                assert forall|k2: int| 0 <= k2 < self.active_spells.len() implies
                    #[trigger] self.spell_ok(k2) by {
                    assert(pre.spell_ok(k2));
                }
                assert(self.entities.inner@ =~= pickups_snapped(
                    pre.entities.inner@,
                    stats.collected@,
                    k + 1,
                ));
            }
            k = k + 1;
        }
    }

    /// One wizard's cast: exactly `cast_step` applied to the ledger and
    /// its side's mana.
    fn cast_one(&mut self, actions: &Vec<crate::actions::Action>, i: usize, my_side: bool)
        requires
            old(self).wf(),
            i < 4,
            actions.len() == 2,
            forall|k: int|
                0 <= k < 2 ==> ((#[trigger] actions[k]) matches
                    crate::actions::Action::Spell(_, eid) ==> eid
                    < old(self).entities.inner.len()),
        ensures
            final(self).wf(),
            final(self).entities == old(self).entities,
            final(self).round == old(self).round,
            final(self).winner == old(self).winner,
            final(self).my_id == old(self).my_id,
            final(self).my_score == old(self).my_score,
            final(self).enemy_score == old(self).enemy_score,
            final(self).my_goal == old(self).my_goal,
            final(self).enemy_goal == old(self).enemy_goal,
            ({
                let mp0: int = if my_side {
                    old(self).my_mp as int
                } else {
                    old(self).enemy_mp as int
                };
                let (l1, m1) = cast_step(
                    old(self).active_spells@,
                    mp0,
                    old(self).round,
                    i as int,
                    actions[(i % 2) as int],
                );
                &&& final(self).active_spells@ == l1
                &&& (if my_side {
                    final(self).my_mp == m1 && final(self).enemy_mp == old(self).enemy_mp
                } else {
                    final(self).enemy_mp == m1 && final(self).my_mp == old(self).my_mp
                })
            }),
    {
        let w = self.entities.get(i);
        proof {
            assert(w.sub_id == i % 2);
            assert(w.id == i);
        }
        if let crate::actions::Action::Spell(kind, eid) = actions[w.sub_id] {
            let cost = kind.cost();
            let mp = if my_side {
                self.my_mp
            } else {
                self.enemy_mp
            };
            if mp >= cost {
                let spell = crate::spells::Spell::new(kind, w.id, eid, self.round);
                let ghost sb = *self;
                if kind == crate::spells::SpellType::Petrificus {
                    self.active_spells.insert(0, spell);
                } else {
                    self.active_spells.push(spell);
                }
                if my_side {
                    self.my_mp = self.my_mp - cost;
                } else {
                    self.enemy_mp = self.enemy_mp - cost;
                }
                proof {
                    if kind == crate::spells::SpellType::Petrificus {
                        assert(self.active_spells@ =~= seq![spell] + sb.active_spells@);
                    }
                    assert forall|k2: int| 0 <= k2 < self.active_spells.len() implies
                        #[trigger] self.spell_ok(k2) by {
                        if kind == crate::spells::SpellType::Petrificus {
                            if k2 > 0 {
                                assert(self.active_spells[k2] == sb.active_spells[k2 - 1]);
                                assert(sb.spell_ok(k2 - 1));
                            } else {
                                assert(self.active_spells[k2] == spell);
                            }
                        } else {
                            if k2 < sb.active_spells.len() {
                                assert(self.active_spells[k2] == sb.active_spells[k2]);
                                assert(sb.spell_ok(k2));
                            } else {
                                assert(self.active_spells[k2] == spell);
                            }
                        }
                    }
                }
            }
        }
    }

    /// For each wizard of one side with a cast action and enough mana,
    /// deducts the cost and records the new active effect; Petrificus
    /// effects go to the front of the ledger so that later effects in the
    /// same pass observe the frozen velocity.  The exact outcome is the
    /// two wizards' `cast_step`s applied in slot order.
    fn cast_spells(&mut self, actions: &Vec<crate::actions::Action>, start: usize, my_side: bool)
        requires
            old(self).wf(),
            start == 0 || start == 2,
            actions.len() == 2,
            forall|k: int|
                0 <= k < 2 ==> ((#[trigger] actions[k]) matches
                    crate::actions::Action::Spell(_, eid) ==> eid
                    < old(self).entities.inner.len()),
        ensures
            final(self).wf(),
            final(self).entities == old(self).entities,
            final(self).round == old(self).round,
            final(self).winner == old(self).winner,
            final(self).my_id == old(self).my_id,
            final(self).my_score == old(self).my_score,
            final(self).enemy_score == old(self).enemy_score,
            final(self).my_goal == old(self).my_goal,
            final(self).enemy_goal == old(self).enemy_goal,
            side_casts_applied(*old(self), *final(self), actions@, start as int, my_side),
    {
        self.cast_one(actions, start, my_side);
        self.cast_one(actions, start + 1, my_side);
    }
}


/// Every entity moved along its velocity for `ticks` grid steps.
pub open spec fn advanced_ents(a: Seq<Entity>, ticks: int) -> Seq<Entity> {
    a.map(|k: int, e: Entity| Entity { pos: advanced_pos(e, ticks), ..e })
}

/// The entities after one resolved event: a wall rebound negates the
/// crossed component, a post rebound applies the post impulse, a
/// wizard-snaffle pair is a pickup, and every other pair exchanges the
/// mutual impulse (a wizard additionally captures a bludger's homing).
pub open spec fn event_effect(a: Seq<Entity>, ev: crate::state::Collision) -> Seq<Entity> {
    match ev {
        crate::state::Collision::NoEvent => a,
        crate::state::Collision::WallRebound(i, vert) => {
            let e = a[i as int];
            a.update(
                i as int,
                (Entity {
                    vel: if vert {
                        Vec2 { x: e.vel.x, y: (-e.vel.y) as i64 }
                    } else {
                        Vec2 { x: (-e.vel.x) as i64, y: e.vel.y }
                    },
                    ..e
                }),
            )
        },
        crate::state::Collision::PoleRebound(i, pid) => a.update(
            i as int,
            (Entity { vel: crate::motion::pole_new_vel(a[i as int], pid as int), ..a[i as int] }),
        ),
        crate::state::Collision::Entity(i, j) => {
            let ea = a[i as int];
            let eb = a[j as int];
            if ea.kind == EntityType::Wizard && eb.kind == EntityType::Snaffle {
                a.update(
                    i as int,
                    (Entity { linked: Some(j), snaffle_timeout: 3int as i64, ..ea }),
                ).update(j as int, (Entity { linked: Some(i), ..eb }))
            } else {
                a.update(
                    i as int,
                    (Entity { vel: crate::motion::resp_vel_a(ea, eb), ..ea }),
                ).update(
                    j as int,
                    (Entity {
                        vel: crate::motion::resp_vel_b(ea, eb),
                        linked: if ea.kind == EntityType::Wizard && eb.kind
                            == EntityType::Bludger {
                            Some(i)
                        } else {
                            eb.linked
                        },
                        ..eb
                    }),
                )
            }
        },
    }
}

/// The pair an event adds to the collision report.
pub open spec fn event_cols(ev: crate::state::Collision) -> Seq<(usize, usize)> {
    match ev {
        crate::state::Collision::Entity(i, j) => seq![(i, j)],
        _ => Seq::empty(),
    }
}

/// The pair an event adds to the pickup report: exactly the wizard-snaffle
/// pair events.
pub open spec fn event_picks(a: Seq<Entity>, ev: crate::state::Collision) -> Seq<
    (usize, usize),
> {
    match ev {
        crate::state::Collision::Entity(i, j) => if a[i as int].kind == EntityType::Wizard
            && a[j as int].kind == EntityType::Snaffle {
            seq![(i, j)]
        } else {
            Seq::empty()
        },
        _ => Seq::empty(),
    }
}

/// The entities after the first `upto` steps of an event trace: each step
/// advances everyone by its tick count and then resolves its event.
pub open spec fn trace_result(
    a: Seq<Entity>,
    trace: Seq<(u64, crate::state::Collision)>,
    upto: int,
) -> Seq<Entity>
    decreases upto,
{
    if upto <= 0 {
        a
    } else {
        let (t, ev) = trace[upto - 1];
        event_effect(advanced_ents(trace_result(a, trace, upto - 1), t as int), ev)
    }
}

/// The collision pairs reported by the first `upto` steps of a trace.
pub open spec fn trace_cols(
    trace: Seq<(u64, crate::state::Collision)>,
    upto: int,
) -> Seq<(usize, usize)>
    decreases upto,
{
    if upto <= 0 {
        Seq::empty()
    } else {
        trace_cols(trace, upto - 1) + event_cols(trace[upto - 1].1)
    }
}

/// The pickups reported by the first `upto` steps of a trace.
pub open spec fn trace_picks(
    a: Seq<Entity>,
    trace: Seq<(u64, crate::state::Collision)>,
    upto: int,
) -> Seq<(usize, usize)>
    decreases upto,
{
    if upto <= 0 {
        Seq::empty()
    } else {
        let (t, ev) = trace[upto - 1];
        trace_picks(a, trace, upto - 1) + event_picks(
            advanced_ents(trace_result(a, trace, upto - 1), t as int),
            ev,
        )
    }
}

/// The grid time the first `upto` steps of a trace consume.
pub open spec fn trace_ticks(trace: Seq<(u64, crate::state::Collision)>, upto: int) -> int
    decreases upto,
{
    if upto <= 0 {
        0
    } else {
        trace_ticks(trace, upto - 1) + trace[upto - 1].0
    }
}

/// The first `upto` steps of a trace read nothing past `upto`, so
/// appending a step leaves them unchanged.
pub proof fn lemma_trace_prefix(
    a: Seq<Entity>,
    tr: Seq<(u64, crate::state::Collision)>,
    x: (u64, crate::state::Collision),
    upto: int,
)
    requires
        0 <= upto <= tr.len(),
    ensures
        trace_result(a, tr.push(x), upto) == trace_result(a, tr, upto),
        trace_cols(tr.push(x), upto) == trace_cols(tr, upto),
        trace_picks(a, tr.push(x), upto) == trace_picks(a, tr, upto),
        trace_ticks(tr.push(x), upto) == trace_ticks(tr, upto),
    decreases upto,
{
    if upto > 0 {
        lemma_trace_prefix(a, tr, x, upto - 1);
        assert(tr.push(x)[upto - 1] == tr[upto - 1]);
    }
}

/// Fields no physical stage of a turn ever touches.
pub open spec fn same_sides(a: TurnState, b: TurnState) -> bool {
    &&& b.round == a.round
    &&& b.winner == a.winner
    &&& b.my_id == a.my_id
    &&& b.entities.my_id == a.entities.my_id
    &&& b.my_goal == a.my_goal
    &&& b.enemy_goal == a.enemy_goal
}

/// Mana and score, untouched by most stages.
pub open spec fn same_mana_scores(a: TurnState, b: TurnState) -> bool {
    &&& b.my_mp == a.my_mp
    &&& b.enemy_mp == a.enemy_mp
    &&& b.my_score == a.my_score
    &&& b.enemy_score == a.enemy_score
}

/// Stage one: every wizard's pickup cooldown decremented, nothing else.
pub open spec fn timeouts_decayed(a: TurnState, b: TurnState) -> bool {
    &&& same_sides(a, b)
    &&& same_mana_scores(a, b)
    &&& b.active_spells@ == a.active_spells@
    &&& b.wf()
    &&& b.entities.inner.len() == a.entities.inner.len()
    &&& forall|i: int|
        0 <= i < 4 ==> #[trigger] b.entities.inner[i] == (Entity {
            snaffle_timeout: dec_timeout(a.entities.inner[i].snaffle_timeout as int) as i64,
            ..a.entities.inner[i]
        })
    &&& forall|i: int|
        4 <= i < a.entities.inner.len() ==> #[trigger] b.entities.inner[i]
            == a.entities.inner[i]
}

/// Stage two, one side: its two wizards have released anything held (the
/// released snaffle takes the wizard's position and velocity, thrown or
/// dropped per the action) and thrust per their actions; other wizards'
/// links, every cooldown and every removal flag are untouched.
pub open spec fn side_acted(a: TurnState, b: TurnState, start: int) -> bool {
    &&& same_sides(a, b)
    &&& same_mana_scores(a, b)
    &&& b.active_spells == a.active_spells
    &&& b.wf()
    &&& same_skeleton(a.entities, b.entities)
    &&& forall|k: int|
        start <= k < start + 2 ==> (#[trigger] b.entities.inner[k]).linked is None
    &&& forall|k: int|
        0 <= k < 4 && !(start <= k < start + 2) ==> (#[trigger] b.entities.inner[k]).linked
            == a.entities.inner[k].linked
    &&& forall|k: int|
        0 <= k < a.entities.inner.len() ==> (#[trigger] b.entities.inner[k]).dead
            == a.entities.inner[k].dead && b.entities.inner[k].snaffle_timeout
            == a.entities.inner[k].snaffle_timeout
}

/// Stage three: each bludger has thrust toward its chosen wizard; no link,
/// cooldown or removal flag changes.
pub open spec fn bludgers_aimed(a: TurnState, b: TurnState) -> bool {
    &&& same_sides(a, b)
    &&& same_mana_scores(a, b)
    &&& b.active_spells == a.active_spells
    &&& b.wf()
    &&& same_skeleton(a.entities, b.entities)
    &&& forall|k: int|
        0 <= k < a.entities.inner.len() ==> (#[trigger] b.entities.inner[k]).linked
            == a.entities.inner[k].linked && b.entities.inner[k].dead
            == a.entities.inner[k].dead && b.entities.inner[k].snaffle_timeout
            == a.entities.inner[k].snaffle_timeout
}

/// Stage four: every active effect applied in ledger order and the expired
/// ones dropped.
pub open spec fn spells_resolved(a: TurnState, b: TurnState) -> bool {
    &&& same_sides(a, b)
    &&& same_mana_scores(a, b)
    &&& b.wf()
    &&& same_skeleton(a.entities, b.entities)
    &&& ({
        let fl = forces_applied(
            a.entities.inner@,
            a.active_spells@,
            a.active_spells.len() as int,
        );
        &&& b.entities.inner@ == fl.0
        &&& b.active_spells@ == retained_prefix(fl.1, a.round, a.active_spells.len() as int)
    })
}

/// Stage five: the collision loop, as an event trace whose resolved pair
/// events and pickups are exactly the reported statistics.
pub open spec fn motion_resolved(
    a: TurnState,
    b: TurnState,
    cols: Seq<(usize, usize)>,
    picks: Seq<(usize, usize)>,
) -> bool {
    &&& same_sides(a, b)
    &&& same_mana_scores(a, b)
    &&& b.active_spells == a.active_spells
    &&& b.wf()
    &&& same_skeleton(a.entities, b.entities)
    &&& exists|trace: Seq<(u64, crate::state::Collision)>|
        #[trigger] motion_phase(a.entities.inner@, b.entities.inner@, trace) && cols
            == trace_cols(trace, trace.len() as int) && picks == trace_picks(
            a.entities.inner@,
            trace,
            trace.len() as int,
        )
}

/// Stage six: every entity's velocity scaled by its kind's friction.
pub open spec fn friction_taken(a: TurnState, b: TurnState) -> bool {
    &&& same_sides(a, b)
    &&& same_mana_scores(a, b)
    &&& b.active_spells == a.active_spells
    &&& b.wf()
    &&& b.entities.inner.len() == a.entities.inner.len()
    &&& forall|i: int|
        0 <= i < a.entities.inner.len() ==> #[trigger] b.entities.inner[i] == (Entity {
            vel: Vec2 {
                x: frictioned(
                    a.entities.inner[i].vel.x as int,
                    a.entities.inner[i].kind.friction_num_spec(),
                    a.entities.inner[i].kind.friction_den_spec(),
                ) as i64,
                y: frictioned(
                    a.entities.inner[i].vel.y as int,
                    a.entities.inner[i].kind.friction_num_spec(),
                    a.entities.inner[i].kind.friction_den_spec(),
                ) as i64,
            },
            ..a.entities.inner[i]
        })
}

/// Stage seven: each live snaffle past a border line is marked out of play
/// and is exactly one point for the side attacking that line; the reported
/// gains are those point counts.
pub open spec fn goals_scored(a: TurnState, b: TurnState, gain_my: int, gain_enemy: int) -> bool {
    let gr = count_goals(a.entities.inner@, true, a.entities.inner.len() as int);
    let gl = count_goals(a.entities.inner@, false, a.entities.inner.len() as int);
    &&& same_sides(a, b)
    &&& b.my_mp == a.my_mp
    &&& b.enemy_mp == a.enemy_mp
    &&& b.active_spells == a.active_spells
    &&& b.wf()
    &&& forall|i: int|
        0 <= i < a.entities.inner.len() ==> #[trigger] b.entities.inner[i] == (if 4 <= i
            < a.entities.inner.len() - 2 && (is_goal_right(a.entities.inner[i]) || is_goal_left(
            a.entities.inner[i],
        )) {
            Entity { dead: true, ..a.entities.inner[i] }
        } else {
            a.entities.inner[i]
        })
    &&& b.my_score == a.my_score + (if a.my_id == 0 {
        gr
    } else {
        gl
    })
    &&& b.enemy_score == a.enemy_score + (if a.my_id == 0 {
        gl
    } else {
        gr
    })
    &&& gain_my == (if a.my_id == 0 {
        gr
    } else {
        gl
    })
    &&& gain_enemy == (if a.my_id == 0 {
        gl
    } else {
        gr
    })
}

/// Stage eight: each picked-up snaffle snapped to its wizard.
pub open spec fn pickups_done(a: TurnState, b: TurnState, collected: Seq<(usize, usize)>) -> bool {
    &&& same_sides(a, b)
    &&& same_mana_scores(a, b)
    &&& b.active_spells == a.active_spells
    &&& b.wf()
    &&& b.entities.inner@ == pickups_snapped(a.entities.inner@, collected, collected.len() as int)
}

/// Stages one to four composed: the state just before the collision loop.
pub open spec fn early_stages(
    a: TurnState,
    b: TurnState,
    my_start: int,
    enemy_start: int,
) -> bool {
    exists|m: Seq<TurnState>|
        {
            &&& #[trigger] m.len() == 4
            &&& timeouts_decayed(a, m[0])
            &&& side_acted(m[0], m[1], my_start)
            &&& side_acted(m[1], m[2], enemy_start)
            &&& bludgers_aimed(m[2], m[3])
            &&& spells_resolved(m[3], b)
        }
}

/// Stages six to ten composed: friction, scoring, pickup finalization and
/// both sides' casts.
pub open spec fn late_stages(
    a: TurnState,
    b: TurnState,
    my_actions: Seq<crate::actions::Action>,
    enemy_actions: Seq<crate::actions::Action>,
    my_start: int,
    enemy_start: int,
    stats: crate::state::Stats,
) -> bool {
    exists|m: Seq<TurnState>|
        {
            &&& #[trigger] m.len() == 4
            &&& friction_taken(a, m[0])
            &&& goals_scored(m[0], m[1], stats.my_score_gain as int, stats.enemy_score_gain as int)
            &&& pickups_done(m[1], m[2], stats.collected@)
            &&& side_casts_applied(m[2], m[3], my_actions, my_start, true)
            &&& side_casts_applied(m[3], b, enemy_actions, enemy_start, false)
            &&& m[3].entities == m[2].entities
            &&& b.entities == m[3].entities
            &&& same_sides(m[2], m[3])
            &&& same_sides(m[3], b)
            &&& m[3].my_score == m[2].my_score && m[3].enemy_score == m[2].enemy_score
            &&& b.my_score == m[3].my_score && b.enemy_score == m[3].enemy_score
            &&& b.wf()
        }
}

/// The whole physical phase of one turn, every stage in its strict order,
/// with the reported statistics tied to the collision loop's events and
/// the scoring counts.
pub open spec fn turn_stages(
    a: TurnState,
    b: TurnState,
    my_actions: Seq<crate::actions::Action>,
    enemy_actions: Seq<crate::actions::Action>,
    stats: crate::state::Stats,
) -> bool {
    let my_start: int = if a.my_id == 0 {
        0
    } else {
        2
    };
    let enemy_start: int = if a.my_id == 0 {
        2
    } else {
        0
    };
    exists|m: Seq<TurnState>|
        {
            &&& #[trigger] m.len() == 2
            &&& early_stages(a, m[0], my_start, enemy_start)
            &&& motion_resolved(m[0], m[1], stats.collisions@, stats.collected@)
            &&& late_stages(m[1], b, my_actions, enemy_actions, my_start, enemy_start, stats)
        }
}

/// The turn's closing bookkeeping: at the last round the higher final
/// score wins and equal scores draw; before that a score above half the
/// snaffle count wins at once; and when no winner is set, both sides'
/// mana grows by one, capped, and the round advances.  Nothing else
/// changes.
pub open spec fn win_concluded(a: TurnState, b: TurnState) -> bool {
    let half = (a.entities.inner.len() - 6) / 2;
    if a.round >= LAST_ROUND {
        b == (TurnState {
            winner: Some(
                if a.my_score > a.enemy_score {
                    Faction::Me
                } else if a.my_score < a.enemy_score {
                    Faction::Enemy
                } else {
                    Faction::Neutral
                },
            ),
            ..a
        })
    } else if a.my_score > half {
        b == (TurnState { winner: Some(Faction::Me), ..a })
    } else if a.enemy_score > half {
        b == (TurnState { winner: Some(Faction::Enemy), ..a })
    } else {
        b == (TurnState {
            my_mp: if a.my_mp + 1 > MANA_CAP {
                MANA_CAP
            } else {
                (a.my_mp + 1) as i64
            },
            enemy_mp: if a.enemy_mp + 1 > MANA_CAP {
                MANA_CAP
            } else {
                (a.enemy_mp + 1) as i64
            },
            round: (a.round + 1) as u64,
            ..a
        })
    }
}

/// Validity of a recorded entity-pair event: indices are ordered and in
/// range, and a wizard-snaffle pair is a genuine pickup opportunity —
/// cooldown expired and both ends free.
pub open spec fn pair_event_ok(st: TurnState, a: int, b: int) -> bool {
    &&& 0 <= a < b < st.entities.inner.len()
    &&& (st.entities.inner[a].kind == EntityType::Wizard && st.entities.inner[b].kind
        == EntityType::Snaffle ==> st.entities.inner[a].snaffle_timeout <= 0
        && st.entities.inner[a].linked is None && st.entities.inner[b].linked is None)
}

/// Validity of whichever event the scan recorded.
pub open spec fn event_ok(st: TurnState, ev: crate::state::Collision) -> bool {
    match ev {
        crate::state::Collision::NoEvent => true,
        crate::state::Collision::Entity(a, b) => pair_event_ok(st, a as int, b as int),
        crate::state::Collision::WallRebound(a, _) => (a as int) < st.entities.inner.len(),
        crate::state::Collision::PoleRebound(a, p) => (a as int) < st.entities.inner.len() && p
            < 4,
    }
}

/// During the collision loop a wizard holding a snaffle is always inside
/// its pickup cooldown (it picked the snaffle up this very turn), so the
/// contact scan never produces a second pickup for it.
pub open spec fn holder_cooldown_inv(st: TurnState) -> bool {
    forall|i: int|
        0 <= i < 4 && (#[trigger] st.entities.inner[i]).linked is Some
            ==> st.entities.inner[i].snaffle_timeout >= 1
}

/// An event time quantized to the turn's time grid and capped by the
/// remaining window.
fn ticks_of(t: crate::math::Frac, cap: u64) -> (r: u64)
    requires
        t.wf(),
        cap <= TIME_GRID,
    ensures
        r <= cap,
        ({
            let v = (t.num * (TIME_GRID as int)) / (t.den as int);
            if v >= cap {
                r == cap
            } else {
                r == v
            }
        }),
{
    proof {
        assert(0 <= t.num * (TIME_GRID as int) <= 0x8000_0000_0000_0000_0000_0000)
            by (nonlinear_arith)
            requires
                0 <= t.num <= 0x8000_0000_0000_0000,
        ;
        vstd::arithmetic::div_mod::lemma_fundamental_div_mod(
            t.num * (TIME_GRID as int),
            t.den as int,
        );
        vstd::arithmetic::div_mod::lemma_mod_bound(t.num * (TIME_GRID as int), t.den as int);
        assert((t.num * (TIME_GRID as int)) / (t.den as int) >= 0) by (nonlinear_arith)
            requires
                t.num * (TIME_GRID as int) == (t.den as int) * ((t.num * (TIME_GRID as int))
                    / (t.den as int)) + (t.num * (TIME_GRID as int)) % (t.den as int),
                0 <= (t.num * (TIME_GRID as int)) % (t.den as int) < t.den as int,
                t.num * (TIME_GRID as int) >= 0,
                t.den > 0,
        ;
    }
    let v: i128 = (t.num * (TIME_GRID as i128)) / t.den;
    if v >= cap as i128 {
        cap
    } else {
        v as u64
    }
}

impl TurnState {
    /// Advances every entity across the turn window, resolving the single
    /// earliest physical event at a time — wall rebound, goal-post rebound,
    /// pickup or pairwise collision — until the window is consumed.  Event
    /// times are quantized to the turn's time grid; among equal-earliest
    /// events, the one found first in index order wins.
    /// One pass of the event scan: the earliest candidate event over all
    /// live entities — wall, goal post, then pairs in index order — with
    /// its time on the grid, capped by the remaining window.
    fn scan_earliest(&self, remaining: u64) -> (r: (u64, crate::state::Collision))
        requires
            self.wf(),
            holder_cooldown_inv(*self),
            remaining <= TIME_GRID,
        ensures
            r.0 <= remaining,
            event_ok(*self, r.1),
    {
        let n = self.entities.len();
        let mut best_ticks: u64 = remaining;
        let mut ev: crate::state::Collision = crate::state::Collision::NoEvent;
        let mut i: usize = 0;
        while i < n
            invariant
                i <= n,
                n == self.entities.inner.len(),
                self.wf(),
                holder_cooldown_inv(*self),
                remaining <= TIME_GRID,
                best_ticks <= remaining,
                event_ok(*self, ev),
            decreases n - i,
        {
            if !self.entities.get(i).dead {
                if let Option::Some((t, vert)) = self.rebound_time(i) {
                    let tk = ticks_of(t, remaining);
                    if tk < best_ticks {
                        best_ticks = tk;
                        ev = crate::state::Collision::WallRebound(i, vert);
                    }
                }
                if let Option::Some((t, pid)) = self.pole_rebound_time(i) {
                    let tk = ticks_of(t, remaining);
                    if tk < best_ticks {
                        best_ticks = tk;
                        ev = crate::state::Collision::PoleRebound(i, pid);
                    }
                }
                let mut j = i + 1;
                while j < n
                    invariant
                        i < j <= n,
                        i < n,
                        n == self.entities.inner.len(),
                        self.wf(),
                        holder_cooldown_inv(*self),
                        remaining <= TIME_GRID,
                        best_ticks <= remaining,
                        event_ok(*self, ev),
                    decreases n - j,
                {
                    if !self.entities.get(j).dead {
                        if let Option::Some(t) = self.collision_time(i, j) {
                            let tk = ticks_of(t, remaining);
                            if tk < best_ticks {
                                best_ticks = tk;
                                ev = crate::state::Collision::Entity(i, j);
                                proof {
                                    let ea = self.entities.inner[i as int];
                                    let eb = self.entities.inner[j as int];
                                    assert(!crate::motion::pair_excluded(ea, eb));
                                    if ea.kind == EntityType::Wizard && eb.kind
                                        == EntityType::Snaffle {
                                        assert(ea.snaffle_timeout <= 0);
                                        assert(eb.linked is None);
                                        assert(ea.linked is None);
                                    }
                                }
                            }
                        }
                    }
                    j = j + 1;
                }
            }
            i = i + 1;
        }
        (best_ticks, ev)
    }

    /// Resolves the single recorded event: negates the velocity component
    /// for a wall rebound, applies the post impulse for a goal-post
    /// rebound, and hands an entity pair to the pairwise response.
    #[verifier::rlimit(100)]
    #[verifier::spinoff_prover]
    fn resolve_event(&mut self, stats: &mut crate::state::Stats, ev: crate::state::Collision)
        requires
            old(self).wf(),
            holder_cooldown_inv(*old(self)),
            event_ok(*old(self), ev),
        ensures
            final(self).wf(),
            holder_cooldown_inv(*final(self)),
            same_skeleton(old(self).entities, final(self).entities),
            forall|k: int|
                0 <= k < old(self).entities.inner.len()
                    ==> (#[trigger] final(self).entities.inner[k]).dead
                    == old(self).entities.inner[k].dead,
            final(stats).collected@.len() >= old(stats).collected@.len(),
            forall|k: int|
                0 <= k < old(stats).collected.len() ==> #[trigger] final(stats).collected[k]
                    == old(stats).collected[k],
            forall|k: int|
                old(stats).collected.len() <= k < final(stats).collected.len() ==> {
                    let (w, s2) = #[trigger] final(stats).collected[k];
                    w < old(self).entities.inner.len() && s2 < old(self).entities.inner.len()
                        && w != s2
                },
            final(stats).my_score_gain == old(stats).my_score_gain,
            final(stats).enemy_score_gain == old(stats).enemy_score_gain,
            final(self).entities.inner@ == event_effect(old(self).entities.inner@, ev),
            final(stats).collisions@ == old(stats).collisions@ + event_cols(ev),
            final(stats).collected@ == old(stats).collected@ + event_picks(
                old(self).entities.inner@,
                ev,
            ),
            final(self).round == old(self).round,
            final(self).winner == old(self).winner,
            final(self).my_id == old(self).my_id,
            final(self).my_mp == old(self).my_mp,
            final(self).enemy_mp == old(self).enemy_mp,
            final(self).my_score == old(self).my_score,
            final(self).enemy_score == old(self).enemy_score,
            final(self).active_spells == old(self).active_spells,
            final(self).my_goal == old(self).my_goal,
            final(self).enemy_goal == old(self).enemy_goal,
    {
        match ev {
            crate::state::Collision::NoEvent => {
                proof {
                    assert(self.entities.inner@ =~= event_effect(self.entities.inner@, ev));
                    assert(stats.collisions@ =~= stats.collisions@ + event_cols(ev));
                    assert(stats.collected@ =~= stats.collected@ + event_picks(
                        self.entities.inner@,
                        ev,
                    ));
                }
            },
            crate::state::Collision::WallRebound(a, vert) => {
                let ghost before = *self;
                let mut e = self.entities.get(a);
                if vert {
                    e.vel.y = -e.vel.y;
                } else {
                    e.vel.x = -e.vel.x;
                }
                self.entities.set(a, e);
                proof {
                    lemma_layout_preserved(before.entities, self.entities);
                    lemma_links_preserved(before.entities, self.entities);
                    assert forall|k2: int| 0 <= k2 < self.active_spells.len() implies
                        #[trigger] self.spell_ok(k2) by {
                        assert(before.spell_ok(k2));
                    }
                    assert(self.entities.inner@ =~= event_effect(before.entities.inner@, ev));
                    assert(stats.collisions@ =~= stats.collisions@ + event_cols(ev));
                    assert(stats.collected@ =~= stats.collected@ + event_picks(
                        before.entities.inner@,
                        ev,
                    ));
                }
            },
            crate::state::Collision::PoleRebound(a, pid) => {
                let ghost before = *self;
                self.pole_rebound_response(a, pid);
                proof {
                    lemma_layout_preserved(before.entities, self.entities);
                    lemma_links_preserved(before.entities, self.entities);
                    assert forall|k2: int| 0 <= k2 < self.active_spells.len() implies
                        #[trigger] self.spell_ok(k2) by {
                        assert(before.spell_ok(k2));
                    }
                    assert(self.entities.inner@ =~= event_effect(before.entities.inner@, ev));
                    assert(stats.collisions@ =~= stats.collisions@ + event_cols(ev));
                    assert(stats.collected@ =~= stats.collected@ + event_picks(
                        before.entities.inner@,
                        ev,
                    ));
                }
            },
            crate::state::Collision::Entity(a, b) => {
                let ghost before = *self;
                let ghost stats_before = *stats;
                stats.collisions.push((a, b));
                self.collision_response(stats, a, b);
                proof {
                    let ea = before.entities.inner[a as int];
                    let eb = before.entities.inner[b as int];
                    lemma_layout_preserved(before.entities, self.entities);
                    if ea.kind == EntityType::Wizard && eb.kind == EntityType::Snaffle {
                        crate::store::lemma_links_pickup(
                            before.entities,
                            self.entities,
                            a as int,
                            b as int,
                        );
                    } else if ea.kind == EntityType::Wizard && eb.kind == EntityType::Bludger {
                        crate::store::lemma_links_retarget(
                            before.entities,
                            self.entities,
                            b as int,
                            a as int,
                        );
                    } else {
                        lemma_links_preserved(before.entities, self.entities);
                    }
                    assert forall|k2: int| 0 <= k2 < self.active_spells.len() implies
                        #[trigger] self.spell_ok(k2) by {
                        assert(before.spell_ok(k2));
                    }
                    assert(holder_cooldown_inv(*self));
                    assert(self.entities.inner@ =~= event_effect(before.entities.inner@, ev));
                    assert(stats.collisions@ =~= stats_before.collisions@ + event_cols(ev));
                    assert(stats.collected@ =~= stats_before.collected@ + event_picks(
                        before.entities.inner@,
                        ev,
                    ));
                }
            },
        }
    }

    /// Advances every entity across the turn window, resolving the single
    /// earliest physical event at a time — wall rebound, goal-post rebound,
    /// pickup or pairwise collision — until the window is consumed.  Event
    /// times are quantized to the turn's time grid; among equal-earliest
    /// events, the one found first in index order wins.  At most EVENT_CAP
    /// events are resolved in one turn; should a degenerate state produce
    /// more (only zero-time events can), the rest of the window is consumed
    /// with no further events, as the contract's event trace states.
    fn resolve_collisions(&mut self, stats: &mut crate::state::Stats)
        requires
            old(self).wf(),
            holder_cooldown_inv(*old(self)),
            forall|k: int|
                0 <= k < old(stats).collected.len() ==> {
                    let (w, s2) = #[trigger] old(stats).collected[k];
                    w < old(self).entities.inner.len() && s2 < old(self).entities.inner.len()
                        && w != s2
                },
        ensures
            final(self).wf(),
            same_skeleton(old(self).entities, final(self).entities),
            forall|k: int|
                0 <= k < old(self).entities.inner.len()
                    ==> (#[trigger] final(self).entities.inner[k]).dead
                    == old(self).entities.inner[k].dead,
            forall|k: int|
                0 <= k < final(stats).collected.len() ==> {
                    let (w, s2) = #[trigger] final(stats).collected[k];
                    w < old(self).entities.inner.len() && s2 < old(self).entities.inner.len()
                        && w != s2
                },
            final(stats).my_score_gain == old(stats).my_score_gain,
            final(stats).enemy_score_gain == old(stats).enemy_score_gain,
            final(self).round == old(self).round,
            final(self).winner == old(self).winner,
            final(self).my_id == old(self).my_id,
            final(self).my_mp == old(self).my_mp,
            final(self).enemy_mp == old(self).enemy_mp,
            final(self).my_score == old(self).my_score,
            final(self).enemy_score == old(self).enemy_score,
            final(self).active_spells == old(self).active_spells,
            final(self).my_goal == old(self).my_goal,
            final(self).enemy_goal == old(self).enemy_goal,
            exists|trace: Seq<(u64, crate::state::Collision)>|
                #[trigger] motion_phase(
                    old(self).entities.inner@,
                    final(self).entities.inner@,
                    trace,
                ) && final(stats).collisions@ == old(stats).collisions@ + trace_cols(
                    trace,
                    trace.len() as int,
                ) && final(stats).collected@ == old(stats).collected@ + trace_picks(
                    old(self).entities.inner@,
                    trace,
                    trace.len() as int,
                ),
    {
        let ghost pre = *old(self);
        let n = self.entities.len();
        let mut elapsed: u64 = 0;
        let mut fuel: usize = EVENT_CAP;
        let ghost mut trace: Seq<(u64, crate::state::Collision)> = Seq::empty();
        while elapsed < TIME_GRID && fuel > 0
            invariant
                elapsed <= TIME_GRID,
                n == self.entities.inner.len(),
                pre.wf(),
                self.wf(),
                holder_cooldown_inv(*self),
                same_skeleton(pre.entities, self.entities),
                forall|k: int|
                    0 <= k < pre.entities.inner.len()
                        ==> (#[trigger] self.entities.inner[k]).dead
                        == pre.entities.inner[k].dead,
                forall|k: int|
                    0 <= k < stats.collected.len() ==> {
                        let (w, s2) = #[trigger] stats.collected[k];
                        w < n && s2 < n && w != s2
                    },
                stats.my_score_gain == old(stats).my_score_gain,
                stats.enemy_score_gain == old(stats).enemy_score_gain,
                self.round == pre.round,
                self.winner == pre.winner,
                self.my_id == pre.my_id,
                self.my_mp == pre.my_mp,
                self.enemy_mp == pre.enemy_mp,
                self.my_score == pre.my_score,
                self.enemy_score == pre.enemy_score,
                self.active_spells == pre.active_spells,
                self.my_goal == pre.my_goal,
                self.enemy_goal == pre.enemy_goal,
                trace.len() + fuel == EVENT_CAP,
                forall|k: int| 0 <= k < trace.len() ==> (#[trigger] trace[k]).0 <= TIME_GRID,
                elapsed == trace_ticks(trace, trace.len() as int),
                self.entities.inner@ == trace_result(
                    pre.entities.inner@,
                    trace,
                    trace.len() as int,
                ),
                stats.collisions@ == old(stats).collisions@ + trace_cols(
                    trace,
                    trace.len() as int,
                ),
                stats.collected@ == old(stats).collected@ + trace_picks(
                    pre.entities.inner@,
                    trace,
                    trace.len() as int,
                ),
            decreases fuel,
        {
            fuel = fuel - 1;
            let remaining: u64 = TIME_GRID - elapsed;
            let (best_ticks, ev) = self.scan_earliest(remaining);
            let ghost before_adv = *self;
            self.advance_all(best_ticks);
            proof {
                assert forall|k: int|
                    0 <= k < n implies (#[trigger] self.entities.inner[k]).kind
                        == before_adv.entities.inner[k].kind && self.entities.inner[k].linked
                        == before_adv.entities.inner[k].linked
                        && self.entities.inner[k].snaffle_timeout
                        == before_adv.entities.inner[k].snaffle_timeout
                        && self.entities.inner[k].dead
                        == before_adv.entities.inner[k].dead by {
                    assert(self.entities.inner[k] == (Entity {
                        pos: crate::motion::advanced_pos(
                            before_adv.entities.inner[k],
                            best_ticks as int,
                        ),
                        ..before_adv.entities.inner[k]
                    }));
                }
                assert(event_ok(*self, ev));
                assert(holder_cooldown_inv(*self));
                assert(self.entities.inner@ =~= advanced_ents(
                    before_adv.entities.inner@,
                    best_ticks as int,
                ));
            }
            elapsed = elapsed + best_ticks;
            self.resolve_event(stats, ev);
            proof {
                let x = (best_ticks, ev);
                lemma_trace_prefix(pre.entities.inner@, trace, x, trace.len() as int);
                trace = trace.push(x);
                assert(trace[trace.len() - 1] == x);
                assert(self.entities.inner@ == trace_result(
                    pre.entities.inner@,
                    trace,
                    trace.len() as int,
                ));
                assert(stats.collisions@ =~= old(stats).collisions@ + trace_cols(
                    trace,
                    trace.len() as int,
                ));
                assert(stats.collected@ =~= old(stats).collected@ + trace_picks(
                    pre.entities.inner@,
                    trace,
                    trace.len() as int,
                ));
            }
        }
        if elapsed < TIME_GRID {
            let rest = TIME_GRID - elapsed;
            let ghost before_adv = *self;
            self.advance_all(rest);
            proof {
                assert(self.entities.inner@ =~= advanced_ents(
                    before_adv.entities.inner@,
                    rest as int,
                ));
                let x = (rest, crate::state::Collision::NoEvent);
                lemma_trace_prefix(pre.entities.inner@, trace, x, trace.len() as int);
                trace = trace.push(x);
                assert(trace[trace.len() - 1] == x);
                assert(trace_ticks(trace, trace.len() as int) == TIME_GRID);
                assert(forall|k: int|
                    0 <= k < trace.len() ==> (#[trigger] trace[k]).0 <= TIME_GRID);
                assert(self.entities.inner@ == trace_result(
                    pre.entities.inner@,
                    trace,
                    trace.len() as int,
                ));
                assert(stats.collisions@ =~= old(stats).collisions@ + trace_cols(
                    trace,
                    trace.len() as int,
                ));
                assert(stats.collected@ =~= old(stats).collected@ + trace_picks(
                    pre.entities.inner@,
                    trace,
                    trace.len() as int,
                ));
            }
        }
        proof {
            assert(trace_ticks(trace, trace.len() as int) == TIME_GRID);
            assert(trace.len() <= EVENT_CAP + 1);
            assert(motion_phase(pre.entities.inner@, self.entities.inner@, trace));
        }
    }
}

/// The whole motion phase as a trace of resolved events: the final
/// entities are the trace's fold over the starting ones, every step's time
/// lies on the grid, the steps consume the turn window exactly, and at
/// most the engine's event bound of resolved events occurs before the rest
/// of the window is consumed without further events.
pub open spec fn motion_phase(
    a: Seq<Entity>,
    b: Seq<Entity>,
    trace: Seq<(u64, crate::state::Collision)>,
) -> bool {
    &&& b == trace_result(a, trace, trace.len() as int)
    &&& trace_ticks(trace, trace.len() as int) == TIME_GRID
    &&& trace.len() <= EVENT_CAP + 1
    &&& forall|k: int| 0 <= k < trace.len() ==> (#[trigger] trace[k]).0 <= TIME_GRID
}



/// Changing only the winner label, mana (within its cap) or advancing the
/// round keeps a state coherent.
pub proof fn lemma_wf_scalars(a: TurnState, b: TurnState)
    requires
        a.wf(),
        b.entities == a.entities,
        b.my_id == a.my_id,
        b.active_spells == a.active_spells,
        0 <= b.my_mp <= MANA_CAP,
        0 <= b.enemy_mp <= MANA_CAP,
        b.my_score == a.my_score,
        b.enemy_score == a.enemy_score,
        b.my_goal == a.my_goal,
        b.enemy_goal == a.enemy_goal,
        b.round >= a.round,
    ensures
        b.wf(),
{
    assert forall|k: int| 0 <= k < b.active_spells.len() implies #[trigger] b.spell_ok(k) by {
        assert(a.spell_ok(k));
    }
}

impl TurnState {
    /// The stages before motion: cooldown decay, both sides' thrusts and
    /// releases, bludger targeting and spell forces.  After them no wizard
    /// outside its pickup cooldown holds a snaffle.
    #[verifier::rlimit(100)]
    #[verifier::spinoff_prover]
    fn force_phase(
        &mut self,
        my_actions: &Vec<crate::actions::Action>,
        enemy_actions: &Vec<crate::actions::Action>,
    )
        requires
            old(self).wf(),
            my_actions.len() == 2,
            enemy_actions.len() == 2,
            forall|k: int| 0 <= k < 2 ==> (#[trigger] my_actions[k]).wf(),
            forall|k: int| 0 <= k < 2 ==> (#[trigger] enemy_actions[k]).wf(),
        ensures
            final(self).wf(),
            holder_cooldown_inv(*final(self)),
            same_skeleton(old(self).entities, final(self).entities),
            final(self).round == old(self).round,
            final(self).winner == old(self).winner,
            final(self).my_id == old(self).my_id,
            final(self).my_mp == old(self).my_mp,
            final(self).enemy_mp == old(self).enemy_mp,
            final(self).my_score == old(self).my_score,
            final(self).enemy_score == old(self).enemy_score,
            final(self).my_goal == old(self).my_goal,
            final(self).enemy_goal == old(self).enemy_goal,
            early_stages(
                *old(self),
                *final(self),
                if old(self).my_id == 0 {
                    0int
                } else {
                    2int
                },
                if old(self).my_id == 0 {
                    2int
                } else {
                    0int
                },
            ),
    {
        let my_start: usize = if self.my_id == 0 {
            0
        } else {
            2
        };
        let enemy_start: usize = if self.my_id == 0 {
            2
        } else {
            0
        };
        let ghost s0 = *self;
        self.decay_timeouts();
        let ghost s1 = *self;
        self.apply_wizard_actions(my_actions, my_start);
        let ghost s2 = *self;
        self.apply_wizard_actions(enemy_actions, enemy_start);
        let ghost s3 = *self;
        self.bludger_targeting();
        let ghost s4 = *self;
        self.apply_spell_forces();
        proof {
            assert(same_skeleton(s0.entities, s1.entities)) by {
                assert forall|k: int| 0 <= k < s1.entities.inner.len() implies {
                    let ea = s0.entities.inner[k];
                    let eb = #[trigger] s1.entities.inner[k];
                    &&& eb.id == ea.id
                    &&& eb.kind == ea.kind
                    &&& eb.sub_id == ea.sub_id
                    &&& eb.faction == ea.faction
                } by {
                    if k < 4 {
                        assert(s1.entities.inner[k] == (Entity {
                            snaffle_timeout: dec_timeout(s0.entities.inner[k].snaffle_timeout
                                as int) as i64,
                            ..s0.entities.inner[k]
                        }));
                    } else {
                        assert(s1.entities.inner[k] == s0.entities.inner[k]);
                    }
                }
            }
            crate::store::lemma_skeleton_trans(s0.entities, s1.entities, s2.entities);
            crate::store::lemma_skeleton_trans(s0.entities, s2.entities, s3.entities);
            crate::store::lemma_skeleton_trans(s0.entities, s3.entities, s4.entities);
            crate::store::lemma_skeleton_trans(s0.entities, s4.entities, self.entities);
            assert forall|i: int|
                0 <= i < 4 && (#[trigger] self.entities.inner[i]).linked is Some implies
                self.entities.inner[i].snaffle_timeout >= 1 by {
                assert(self.entities.inner[i].linked is None);
            }
            assert(timeouts_decayed(s0, s1));
            assert(side_acted(s1, s2, my_start as int));
            assert(side_acted(s2, s3, enemy_start as int));
            assert(bludgers_aimed(s3, s4));
            assert(spells_resolved(s4, *self));
            let m = seq![s1, s2, s3, s4];
            assert(m.len() == 4 && timeouts_decayed(s0, m[0]) && side_acted(
                m[0],
                m[1],
                my_start as int,
            ) && side_acted(m[1], m[2], enemy_start as int) && bludgers_aimed(m[2], m[3])
                && spells_resolved(m[3], *self));
            assert(early_stages(s0, *self, my_start as int, enemy_start as int));
        }
    }

    /// The stages after motion: friction, scoring, pickup finalization and
    /// spell casting.
    #[verifier::rlimit(100)]
    #[verifier::spinoff_prover]
    fn settle_phase(
        &mut self,
        stats: &mut crate::state::Stats,
        my_actions: &Vec<crate::actions::Action>,
        enemy_actions: &Vec<crate::actions::Action>,
    )
        requires
            old(self).wf(),
            old(self).my_score <= 0x100_0000,
            old(self).enemy_score <= 0x100_0000,
            old(stats).my_score_gain == 0,
            old(stats).enemy_score_gain == 0,
            forall|k: int|
                0 <= k < old(stats).collected.len() ==> {
                    let (w, s2) = #[trigger] old(stats).collected[k];
                    w < old(self).entities.inner.len() && s2 < old(self).entities.inner.len()
                        && w != s2
                },
            my_actions.len() == 2,
            enemy_actions.len() == 2,
            forall|k: int|
                0 <= k < 2 ==> ((#[trigger] my_actions[k]) matches crate::actions::Action::Spell(
                    _,
                    eid,
                ) ==> eid < old(self).entities.inner.len()),
            forall|k: int|
                0 <= k < 2 ==> ((#[trigger] enemy_actions[k]) matches
                    crate::actions::Action::Spell(_, eid) ==> eid
                    < old(self).entities.inner.len()),
        ensures
            final(self).wf(),
            same_skeleton(old(self).entities, final(self).entities),
            final(self).round == old(self).round,
            final(self).winner == old(self).winner,
            final(self).my_id == old(self).my_id,
            final(self).my_goal == old(self).my_goal,
            final(self).enemy_goal == old(self).enemy_goal,
            final(stats).my_score_gain >= 0,
            final(stats).enemy_score_gain >= 0,
            final(stats).collisions == old(stats).collisions,
            final(stats).collected == old(stats).collected,
            final(self).my_score == old(self).my_score + final(stats).my_score_gain,
            final(self).enemy_score == old(self).enemy_score + final(stats).enemy_score_gain,
            late_stages(
                *old(self),
                *final(self),
                my_actions@,
                enemy_actions@,
                if old(self).my_id == 0 {
                    0int
                } else {
                    2int
                },
                if old(self).my_id == 0 {
                    2int
                } else {
                    0int
                },
                *final(stats),
            ),
    {
        let my_start: usize = if self.my_id == 0 {
            0
        } else {
            2
        };
        let enemy_start: usize = if self.my_id == 0 {
            2
        } else {
            0
        };
        let ghost s0 = *self;
        self.score_phase(stats);
        let ghost s2 = *self;
        self.finalize_pickups(stats);
        let ghost s3 = *self;
        self.cast_spells(my_actions, my_start, true);
        let ghost s4 = *self;
        self.cast_spells(enemy_actions, enemy_start, false);
        proof {
            crate::store::lemma_skeleton_trans(s0.entities, s2.entities, s3.entities);
            assert(self.entities == s3.entities);
            let mfr = choose|m1: TurnState|
                #[trigger] friction_taken(s0, m1) && goals_scored(
                    m1,
                    s2,
                    stats.my_score_gain as int,
                    stats.enemy_score_gain as int,
                );
            assert(pickups_done(s2, s3, stats.collected@));
            assert(side_casts_applied(s3, s4, my_actions@, my_start as int, true));
            assert(side_casts_applied(s4, *self, enemy_actions@, enemy_start as int, false));
            let m = seq![mfr, s2, s3, s4];
            assert(m.len() == 4 && friction_taken(s0, m[0]) && goals_scored(
                m[0],
                m[1],
                stats.my_score_gain as int,
                stats.enemy_score_gain as int,
            ) && pickups_done(m[1], m[2], stats.collected@) && side_casts_applied(
                m[2],
                m[3],
                my_actions@,
                my_start as int,
                true,
            ) && side_casts_applied(m[3], *self, enemy_actions@, enemy_start as int, false)
                && m[3].entities == m[2].entities && self.entities == m[3].entities
                && same_sides(m[2], m[3]) && same_sides(m[3], *self)
                && m[3].my_score == m[2].my_score && m[3].enemy_score == m[2].enemy_score
                && self.my_score == m[3].my_score && self.enemy_score == m[3].enemy_score
                && self.wf());
            assert(late_stages(
                s0,
                *self,
                my_actions@,
                enemy_actions@,
                my_start as int,
                enemy_start as int,
                *stats,
            ));
        }
    }

    /// Friction followed by scoring, with the score deltas recorded.
    #[verifier::rlimit(100)]
    #[verifier::spinoff_prover]
    fn score_phase(&mut self, stats: &mut crate::state::Stats)
        requires
            old(self).wf(),
            old(self).my_score <= 0x100_0000,
            old(self).enemy_score <= 0x100_0000,
            old(stats).my_score_gain == 0,
            old(stats).enemy_score_gain == 0,
        ensures
            final(self).wf(),
            same_skeleton(old(self).entities, final(self).entities),
            final(self).round == old(self).round,
            final(self).winner == old(self).winner,
            final(self).my_id == old(self).my_id,
            final(self).my_goal == old(self).my_goal,
            final(self).enemy_goal == old(self).enemy_goal,
            final(stats).my_score_gain >= 0,
            final(stats).enemy_score_gain >= 0,
            final(self).my_score == old(self).my_score + final(stats).my_score_gain,
            final(self).enemy_score == old(self).enemy_score + final(stats).enemy_score_gain,
            final(stats).collected == old(stats).collected,
            final(stats).collisions == old(stats).collisions,
            final(self).entities.inner.len() == old(self).entities.inner.len(),
            exists|m1: TurnState|
                #[trigger] friction_taken(*old(self), m1) && goals_scored(
                    m1,
                    *final(self),
                    final(stats).my_score_gain as int,
                    final(stats).enemy_score_gain as int,
                ),
    {
        let ghost s0 = *self;
        self.apply_friction();
        let ghost s1 = *self;
        self.apply_scoring(stats);
        proof {
            crate::store::lemma_skeleton_trans(s0.entities, s1.entities, self.entities);
            let n = s1.entities.inner.len() as int;
            lemma_count_goals_bounds(s1.entities.inner@, true, n);
            lemma_count_goals_bounds(s1.entities.inner@, false, n);
            assert(friction_taken(s0, s1));
            assert(goals_scored(
                s1,
                *self,
                stats.my_score_gain as int,
                stats.enemy_score_gain as int,
            ));
        }
    }
}

impl TurnState {
    /// The physical phase of one turn: every stage from cooldown decay
    /// through spell casting, leaving only the win condition to decide.
    #[verifier::rlimit(100)]
    #[verifier::spinoff_prover]
    fn advance_phase(
        &mut self,
        my_actions: &Vec<crate::actions::Action>,
        enemy_actions: &Vec<crate::actions::Action>,
    ) -> (stats: crate::state::Stats)
        requires
            old(self).wf(),
            old(self).winner is None,
            old(self).my_score <= 0x100_0000,
            old(self).enemy_score <= 0x100_0000,
            my_actions.len() == 2,
            enemy_actions.len() == 2,
            forall|k: int| 0 <= k < 2 ==> (#[trigger] my_actions[k]).wf(),
            forall|k: int| 0 <= k < 2 ==> (#[trigger] enemy_actions[k]).wf(),
            forall|k: int|
                0 <= k < 2 ==> ((#[trigger] my_actions[k]) matches crate::actions::Action::Spell(
                    _,
                    eid,
                ) ==> eid < old(self).entities.inner.len()),
            forall|k: int|
                0 <= k < 2 ==> ((#[trigger] enemy_actions[k]) matches
                    crate::actions::Action::Spell(_, eid) ==> eid
                    < old(self).entities.inner.len()),
        ensures
            final(self).wf(),
            same_skeleton(old(self).entities, final(self).entities),
            final(self).entities.inner.len() == old(self).entities.inner.len(),
            final(self).my_id == old(self).my_id,
            final(self).my_goal == old(self).my_goal,
            final(self).enemy_goal == old(self).enemy_goal,
            final(self).winner == old(self).winner,
            final(self).round == old(self).round,
            stats.my_score_gain >= 0,
            stats.enemy_score_gain >= 0,
            final(self).my_score == old(self).my_score + stats.my_score_gain,
            final(self).enemy_score == old(self).enemy_score + stats.enemy_score_gain,
            turn_stages(*old(self), *final(self), my_actions@, enemy_actions@, stats),
    {
        let mut stats = crate::state::Stats {
            collisions: Vec::new(),
            collected: Vec::new(),
            my_score_gain: 0,
            enemy_score_gain: 0,
        };
        self.force_phase(my_actions, enemy_actions);
        let ghost s_force = *self;
        let ghost stats_fresh = stats;
        self.resolve_collisions(&mut stats);
        let ghost s_motion = *self;
        let ghost stats_motion = stats;
        self.settle_phase(&mut stats, my_actions, enemy_actions);
        proof {
            let tr = choose|trace: Seq<(u64, crate::state::Collision)>|
                #[trigger] motion_phase(
                    s_force.entities.inner@,
                    s_motion.entities.inner@,
                    trace,
                ) && stats_motion.collisions@ == stats_fresh.collisions@ + trace_cols(
                    trace,
                    trace.len() as int,
                ) && stats_motion.collected@ == stats_fresh.collected@ + trace_picks(
                    s_force.entities.inner@,
                    trace,
                    trace.len() as int,
                );
            assert(stats.collisions@ =~= trace_cols(tr, tr.len() as int));
            assert(stats.collected@ =~= trace_picks(
                s_force.entities.inner@,
                tr,
                tr.len() as int,
            ));
            assert(motion_resolved(s_force, s_motion, stats.collisions@, stats.collected@));
            let m = seq![s_force, s_motion];
            assert(m.len() == 2);
            assert(m[0] == s_force && m[1] == s_motion);
            assert(early_stages(
                *old(self),
                s_force,
                if old(self).my_id == 0 {
                    0int
                } else {
                    2int
                },
                if old(self).my_id == 0 {
                    2int
                } else {
                    0int
                },
            ));
            assert(motion_resolved(s_force, s_motion, stats.collisions@, stats.collected@));
            assert(late_stages(
                s_motion,
                *self,
                my_actions@,
                enemy_actions@,
                if old(self).my_id == 0 {
                    0int
                } else {
                    2int
                },
                if old(self).my_id == 0 {
                    2int
                } else {
                    0int
                },
                stats,
            ));
            assert(turn_stages(*old(self), *self, my_actions@, enemy_actions@, stats));
        }
        stats
    }

    /// Advances the match by exactly one turn, given each side's actions
    /// (indexed by wizard sub-index): cooldown decay, thrust and release,
    /// bludger targeting, spell forces, the event-ordered collision loop,
    /// friction, scoring, pickup finalization, spell casting and the win
    /// condition, in that strict order.  The populated entity count never
    /// changes, link symmetry holds throughout, each side's score grows by
    /// exactly the reported gain, and the winner is decided by the rules:
    /// at the last round the higher final score wins (equal scores draw),
    /// and before that a side wins as soon as its score exceeds half the
    /// match's snaffle count; otherwise both sides gain one mana, capped,
    /// and the round advances.
    ///
    /// The whole effect is pinned by the contract: there exist intermediate
    /// states chaining every stage relation (`turn_stages`), and the final
    /// state is the turn's closing bookkeeping over the last of them
    /// (`win_concluded`).  The collision loop appears in that chain as an
    /// event trace that consumes the window exactly and resolves at most
    /// EVENT_CAP events, and the returned statistics are exactly the
    /// trace's pair events and pickups, with the score gains tied to the
    /// snaffles newly out of play past a border line.
    #[verifier::rlimit(100)]
    #[verifier::spinoff_prover]
    pub fn simulate(
        &mut self,
        my_actions: &Vec<crate::actions::Action>,
        enemy_actions: &Vec<crate::actions::Action>,
    ) -> (stats: crate::state::Stats)
        requires
            old(self).wf(),
            old(self).winner is None,
            old(self).my_score <= 0x100_0000,
            old(self).enemy_score <= 0x100_0000,
            my_actions.len() == 2,
            enemy_actions.len() == 2,
            forall|k: int| 0 <= k < 2 ==> (#[trigger] my_actions[k]).wf(),
            forall|k: int| 0 <= k < 2 ==> (#[trigger] enemy_actions[k]).wf(),
            forall|k: int|
                0 <= k < 2 ==> ((#[trigger] my_actions[k]) matches crate::actions::Action::Spell(
                    _,
                    eid,
                ) ==> eid < old(self).entities.inner.len()),
            forall|k: int|
                0 <= k < 2 ==> ((#[trigger] enemy_actions[k]) matches
                    crate::actions::Action::Spell(_, eid) ==> eid
                    < old(self).entities.inner.len()),
        ensures
            final(self).wf(),
            same_skeleton(old(self).entities, final(self).entities),
            final(self).entities.inner.len() == old(self).entities.inner.len(),
            final(self).my_id == old(self).my_id,
            final(self).my_goal == old(self).my_goal,
            final(self).enemy_goal == old(self).enemy_goal,
            stats.my_score_gain >= 0,
            stats.enemy_score_gain >= 0,
            final(self).my_score == old(self).my_score + stats.my_score_gain,
            final(self).enemy_score == old(self).enemy_score + stats.enemy_score_gain,
            old(self).round >= LAST_ROUND ==> final(self).round == old(self).round
                && final(self).winner == (if final(self).my_score > final(self).enemy_score {
                Some(Faction::Me)
            } else if final(self).my_score < final(self).enemy_score {
                Some(Faction::Enemy)
            } else {
                Some(Faction::Neutral)
            }),
            old(self).round < LAST_ROUND ==> {
                let half = (old(self).entities.inner.len() - 6) / 2;
                if final(self).my_score > half {
                    final(self).winner == Some(Faction::Me)
                        && final(self).round == old(self).round
                } else if final(self).enemy_score > half {
                    final(self).winner == Some(Faction::Enemy)
                        && final(self).round == old(self).round
                } else {
                    final(self).winner is None && final(self).round == old(self).round + 1
                }
            },
            exists|mid: TurnState|
                #[trigger] turn_stages(*old(self), mid, my_actions@, enemy_actions@, stats)
                    && win_concluded(mid, *final(self)),
    {
        let stats = self.advance_phase(my_actions, enemy_actions);
        let ghost mid = *self;
        if self.round >= LAST_ROUND {
            if self.my_score > self.enemy_score {
                self.winner = Some(Faction::Me);
            } else if self.my_score < self.enemy_score {
                self.winner = Some(Faction::Enemy);
            } else {
                self.winner = Some(Faction::Neutral);
            }
            proof {
                lemma_wf_scalars(mid, *self);
                assert(win_concluded(mid, *self));
                assert(turn_stages(*old(self), mid, my_actions@, enemy_actions@, stats)
                    && win_concluded(mid, *self));
            }
            return stats;
        }
        let snaffle_count = self.entities.len() - 6;
        let half: i64 = (snaffle_count / 2) as i64;
        if self.my_score > half {
            self.winner = Some(Faction::Me);
            proof {
                lemma_wf_scalars(mid, *self);
                assert(win_concluded(mid, *self));
                assert(turn_stages(*old(self), mid, my_actions@, enemy_actions@, stats)
                    && win_concluded(mid, *self));
            }
            return stats;
        }
        if self.enemy_score > half {
            self.winner = Some(Faction::Enemy);
            proof {
                lemma_wf_scalars(mid, *self);
                assert(win_concluded(mid, *self));
                assert(turn_stages(*old(self), mid, my_actions@, enemy_actions@, stats)
                    && win_concluded(mid, *self));
            }
            return stats;
        }
        self.my_mp = if self.my_mp + 1 > MANA_CAP {
            MANA_CAP
        } else {
            self.my_mp + 1
        };
        self.enemy_mp = if self.enemy_mp + 1 > MANA_CAP {
            MANA_CAP
        } else {
            self.enemy_mp + 1
        };
        self.round = self.round + 1;
        proof {
            lemma_wf_scalars(mid, *self);
            assert(win_concluded(mid, *self));
            assert(turn_stages(*old(self), mid, my_actions@, enemy_actions@, stats)
                && win_concluded(mid, *self));
        }
        stats
    }
}

} // verus!
