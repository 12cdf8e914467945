//! The whole state of a match at one turn: round counter, winner, mana and
//! score for both sides, the active spell ledger, the goals, and the
//! entity store — together with the perspective flip used for predictive
//! rollouts.

use vstd::prelude::*;
use crate::consts::{MANA_CAP, GOAL_Y, BORDER_RIGHT_X, BORDER_LEFT_X, TOTAL_WIZARD_COUNT};
use crate::vec2::Vec2;
use crate::entity::{Entity, EntityType, Faction};
use crate::spells::Spell;
use crate::store::{EntityStore, wizard_faction, kind_at};
use crate::num::{is_sqrt_floor, isqrt};
use crate::consts::{GOAL_RADIUS, COORD_LIMIT};

verus! {

/// One side's goal: the centre of the scoring segment on that side's
/// border line.
#[derive(Clone, Copy, Debug)]
pub struct Goal {
    pub center: Vec2,
}

/// The goal centre of the given player: player 0 defends the left border,
/// player 1 the right.
pub open spec fn goal_center(id: int) -> Vec2 {
    if id == 0 {
        Vec2 { x: BORDER_LEFT_X, y: GOAL_Y }
    } else {
        Vec2 { x: BORDER_RIGHT_X, y: GOAL_Y }
    }
}

impl Goal {
    pub fn from_id(id: usize) -> (r: Goal)
        requires
            id == 0 || id == 1,
        ensures
            r.center == goal_center(id as int),
    {
        if id == 0 {
            Goal { center: Vec2 { x: BORDER_LEFT_X, y: GOAL_Y } }
        } else {
            Goal { center: Vec2 { x: BORDER_RIGHT_X, y: GOAL_Y } }
        }
    }

    /// Distance from a target point to this goal's scoring segment, with a
    /// safety margin, rounded down to an integer: the aiming heuristic's
    /// measure of how far a throw still has to travel.
    pub fn distance_to(&self, tg: Vec2) -> (r: i64)
        requires
            self.center.bounded(COORD_LIMIT as int),
            tg.bounded(COORD_LIMIT as int),
        ensures
            is_sqrt_floor(r as int, goal_gap_sq(self.center.x as int, tg)),
    {
        proof {
            assert(0 <= (GOAL_Y - GOAL_RADIUS - tg.y) * (GOAL_Y - GOAL_RADIUS - tg.y)
                <= 0x4000_0000_0000_0000
                && 0 <= (tg.y - GOAL_Y - GOAL_RADIUS) * (tg.y - GOAL_Y - GOAL_RADIUS)
                <= 0x4000_0000_0000_0000
                && 0 <= ((self.center.x - tg.x) as int) * ((self.center.x - tg.x) as int)
                <= 0x4000_0000_0000_0000)
                by (nonlinear_arith)
                requires
                    -0x2000_0000 <= tg.y <= 0x2000_0000,
                    -0x2000_0000 <= tg.x <= 0x2000_0000,
                    -0x2000_0000 <= self.center.x <= 0x2000_0000,
            ;
        }
        let dy2: i128 = if tg.y < GOAL_Y - 1400 {
            let d = (GOAL_Y - GOAL_RADIUS - tg.y) as i128;
            d * d
        } else if tg.y > GOAL_Y + 1400 {
            let d = (tg.y - GOAL_Y - GOAL_RADIUS) as i128;
            d * d
        } else {
            0
        };
        let dx: i128 = (self.center.x - tg.x) as i128;
        let total: i128 = dy2 + dx * dx;
        let r = isqrt(total as u128);
        proof {
            assert((r as int) * (r as int) <= (total as int));
            assert((r as int) <= 0x7fff_ffff_ffff_ffff) by (nonlinear_arith)
                requires
                    (r as int) * (r as int) <= (total as int),
                    (total as int) <= 0x8000_0000_0000_0000,
                    r >= 0,
            ;
        }
        r as i64
    }
}


/// The squared distance from a target point to the nearest point of the
/// goal's scoring segment, measured with a safety margin of 0.7 of the
/// goal radius on the vertical axis.
pub open spec fn goal_gap_sq(center_x: int, tg: Vec2) -> int {
    let dy2 = if tg.y < GOAL_Y - 1400 {
        (GOAL_Y - GOAL_RADIUS - tg.y) * (GOAL_Y - GOAL_RADIUS - tg.y)
    } else if tg.y > GOAL_Y + 1400 {
        (tg.y - GOAL_Y - GOAL_RADIUS) * (tg.y - GOAL_Y - GOAL_RADIUS)
    } else {
        0int
    };
    dy2 + (center_x - tg.x) * (center_x - tg.x)
}

/// What one simulated turn reports back: every entity pair that collided,
/// every pickup made, and the points each side gained.
#[derive(Clone, Debug)]
pub struct Stats {
    pub collisions: Vec<(usize, usize)>,
    pub collected: Vec<(usize, usize)>,
    pub my_score_gain: i64,
    pub enemy_score_gain: i64,
}

/// The single earliest physical event found in one pass of the collision
/// loop.
#[derive(Clone, Copy, Debug)]
pub enum Collision {
    NoEvent,
    Entity(usize, usize),
    WallRebound(usize, bool),
    PoleRebound(usize, usize),
}

#[derive(Clone, Debug)]
pub struct TurnState {
    pub round: u64,
    pub winner: Option<Faction>,
    pub my_id: usize,
    pub my_mp: i64,
    pub enemy_mp: i64,
    pub my_score: i64,
    pub enemy_score: i64,
    pub active_spells: Vec<Spell>,
    pub my_goal: Goal,
    pub enemy_goal: Goal,
    pub entities: EntityStore,
}

impl TurnState {
    /// The spell in ledger slot `i` is coherent: caster and target name
    /// populated slots, it was cast no later than the current round, and
    /// its duration is its kind's.
    pub open spec fn spell_ok(self, i: int) -> bool {
        let s = self.active_spells[i];
        &&& s.caster_id < self.entities.inner.len()
        &&& s.target_id < self.entities.inner.len()
        &&& s.casted <= self.round
        &&& s.duration == s.kind.duration_spec()
    }

    /// Every ledger entry is coherent.
    pub open spec fn spells_wf(self) -> bool {
        forall|i: int| 0 <= i < self.active_spells.len() ==> #[trigger] self.spell_ok(i)
    }

    /// A fully coherent match state, as the turn engine consumes and
    /// produces it.
    pub open spec fn wf(self) -> bool {
        &&& self.my_id == 0 || self.my_id == 1
        &&& self.entities.my_id == self.my_id
        &&& self.entities.wf()
        &&& 0 <= self.my_mp <= MANA_CAP
        &&& 0 <= self.enemy_mp <= MANA_CAP
        &&& 0 <= self.my_score
        &&& 0 <= self.enemy_score
        &&& self.spells_wf()
        &&& self.my_goal.center == goal_center(self.my_id as int)
        &&& self.enemy_goal.center == goal_center(if self.my_id == 0 { 1int } else { 0int })
    }

    /// A fresh match state for the given side, with an unpopulated store.
    pub fn new(my_id: usize) -> (r: TurnState)
        requires
            my_id == 0 || my_id == 1,
        ensures
            r.round == 0,
            r.winner is None,
            r.my_id == my_id,
            r.my_mp == 0,
            r.enemy_mp == 0,
            r.my_score == 0,
            r.enemy_score == 0,
            r.active_spells.len() == 0,
            r.entities.inner.len() == 0,
            r.entities.my_id == my_id,
            r.my_goal.center == goal_center(my_id as int),
            r.enemy_goal.center == goal_center(if my_id == 0 { 1int } else { 0int }),
    {
        let enemy_id: usize = if my_id == 0 {
            1
        } else {
            0
        };
        TurnState {
            round: 0,
            winner: None,
            my_id,
            my_mp: 0,
            enemy_mp: 0,
            my_score: 0,
            enemy_score: 0,
            active_spells: Vec::new(),
            entities: EntityStore::new(my_id),
            my_goal: Goal::from_id(my_id),
            enemy_goal: Goal::from_id(enemy_id),
        }
    }

    /// A fresh, fully populated match state for side 0, with
    /// `entity_count` bodies in the fixed layout.
    pub fn init(entity_count: usize) -> (r: TurnState)
        requires
            6 <= entity_count <= 13,
        ensures
            r.wf(),
            r.round == 0,
            r.winner is None,
            r.my_id == 0,
            r.my_mp == 0,
            r.enemy_mp == 0,
            r.my_score == 0,
            r.enemy_score == 0,
            r.active_spells.len() == 0,
            r.entities.inner.len() == entity_count,
            forall|i: int|
                0 <= i < entity_count ==> #[trigger] r.entities.inner[i] == (Entity {
                    dead: true,
                    ..crate::store::initial_entity(0, entity_count as int, i)
                }),
    {
        let mut st = TurnState::new(0);
        st.entities.prepare(entity_count);
        st
    }

    /// Builds a populated match state for side 0 from already-shaped
    /// entity lists: the four wizards, the match's snaffles, and the two
    /// bludgers, in store order.
    pub fn from_vecs(wizards: Vec<Entity>, snaffles: Vec<Entity>, bludgers: Vec<Entity>) -> (r:
        TurnState)
        requires
            wizards.len() == 4,
            snaffles.len() <= 7,
            bludgers.len() == 2,
            forall|i: int|
                0 <= i < 4 ==> {
                    let e = #[trigger] wizards[i];
                    &&& e.id == i
                    &&& e.sub_id == i % 2
                    &&& e.kind == EntityType::Wizard
                    &&& e.faction == wizard_faction(0, i)
                    &&& e.linked is None
                    &&& e.in_range()
                },
            forall|i: int|
                0 <= i < snaffles.len() ==> {
                    let e = #[trigger] snaffles[i];
                    &&& e.id == 4 + i
                    &&& e.kind == EntityType::Snaffle
                    &&& e.faction == Faction::Neutral
                    &&& e.linked is None
                    &&& e.in_range()
                },
            forall|i: int|
                0 <= i < 2 ==> {
                    let e = #[trigger] bludgers[i];
                    &&& e.id == 4 + snaffles.len() + i
                    &&& e.kind == EntityType::Bludger
                    &&& e.faction == Faction::Neutral
                    &&& e.linked is None
                    &&& e.in_range()
                },
        ensures
            r.wf(),
            r.entities.inner@ == wizards@ + snaffles@ + bludgers@,
            r.round == 0,
            r.winner is None,
            r.my_id == 0,
            r.my_mp == 0,
            r.enemy_mp == 0,
            r.my_score == 0,
            r.enemy_score == 0,
            r.active_spells.len() == 0,
    {
        let mut inner: Vec<Entity> = Vec::new();
        let wn = wizards.len();
        let sn = snaffles.len();
        let bn = bludgers.len();
        let mut i: usize = 0;
        while i < wn
            invariant
                i <= wn,
                wn == wizards.len(),
                inner@ == wizards@.subrange(0, i as int),
            decreases wn - i,
        {
            inner.push(wizards[i]);
            proof {
                assert(inner@ =~= wizards@.subrange(0, i + 1));
            }
            i = i + 1;
        }
        let mut j: usize = 0;
        while j < sn
            invariant
                j <= sn,
                sn == snaffles.len(),
                inner@ == wizards@ + snaffles@.subrange(0, j as int),
            decreases sn - j,
        {
            inner.push(snaffles[j]);
            proof {
                assert(inner@ =~= wizards@ + snaffles@.subrange(0, j + 1));
            }
            j = j + 1;
        }
        let mut b: usize = 0;
        while b < bn
            invariant
                b <= bn,
                bn == bludgers.len(),
                inner@ == wizards@ + snaffles@ + bludgers@.subrange(0, b as int),
            decreases bn - b,
        {
            inner.push(bludgers[b]);
            proof {
                assert(inner@ =~= wizards@ + snaffles@ + bludgers@.subrange(0, b + 1));
            }
            b = b + 1;
        }
        proof {
            assert(wizards@.subrange(0, 4) =~= wizards@);
            assert(snaffles@.subrange(0, snaffles@.len() as int) =~= snaffles@);
            assert(bludgers@.subrange(0, 2) =~= bludgers@);
        }
        let st = TurnState {
            round: 0,
            winner: None,
            my_id: 0,
            my_mp: 0,
            enemy_mp: 0,
            my_score: 0,
            enemy_score: 0,
            active_spells: Vec::new(),
            entities: EntityStore { my_id: 0, inner },
            my_goal: Goal::from_id(0),
            enemy_goal: Goal::from_id(1),
        };
        proof {
            assert forall|k: int| 0 <= k < st.entities.inner.len() implies {
                let e = #[trigger] st.entities.inner[k];
                &&& e.id == k
                &&& e.kind == kind_at(st.entities.inner.len() as int, k)
                &&& e.in_range()
                &&& e.linked is None
                &&& (k < 4 ==> e.sub_id == k % 2)
                &&& (k < 4 ==> e.faction == wizard_faction(0, k))
                &&& (4 <= k ==> e.faction == Faction::Neutral)
            } by {
                if k < 4 {
                    assert(st.entities.inner[k] == wizards[k]);
                } else if k < 4 + sn {
                    assert(st.entities.inner[k] == snaffles[k - 4]);
                } else {
                    assert(st.entities.inner[k] == bludgers[k - 4 - sn]);
                }
            }
            assert(st.entities.layout_wf());
            assert forall|k: int| 0 <= k < st.entities.inner.len() implies
                #[trigger] st.entities.link_ok(k) by {}
        }
        st
    }


    /// Readies the store for a turn's observations: populates it on the
    /// first call, and marks every slot dead until observed.
    pub fn prepare(&mut self, entity_count: usize)
        requires
            old(self).my_id == 0 || old(self).my_id == 1,
            old(self).entities.my_id == old(self).my_id,
            6 <= entity_count <= 13,
            old(self).entities.inner.len() == 0 || old(self).entities.wf(),
            old(self).entities.inner.len() == 0 || old(self).entities.inner.len()
                == entity_count,
        ensures
            final(self).entities.wf(),
            final(self).entities.inner.len() == entity_count,
            final(self).entities.my_id == old(self).my_id,
            *final(self) == (TurnState { entities: final(self).entities, ..*old(self) }),
    {
        self.entities.prepare(entity_count);
    }

    /// Slot range of the owning side's wizards.
    pub fn my_wizard_ids(&self) -> (r: (usize, usize))
        ensures
            self.entities.my_id == 0 ==> r == (0usize, 2usize),
            self.entities.my_id != 0 ==> r == (2usize, 4usize),
    {
        self.entities.my_wizard_ids()
    }

    /// Slot range of the opposing side's wizards.
    pub fn enemy_wizard_ids(&self) -> (r: (usize, usize))
        ensures
            self.entities.my_id == 1 ==> r == (0usize, 2usize),
            self.entities.my_id != 1 ==> r == (2usize, 4usize),
    {
        self.entities.enemy_wizard_ids()
    }

    /// Slot range of the snaffles.
    pub fn snaffle_ids(&self) -> (r: (usize, usize))
        requires
            self.entities.inner.len() >= 6,
        ensures
            r == (4usize, (self.entities.inner.len() - 2) as usize),
    {
        self.entities.snaffle_ids()
    }

    /// Slot range of the bludgers.
    pub fn bludger_ids(&self) -> (r: (usize, usize))
        requires
            self.entities.inner.len() >= 6,
        ensures
            r == ((self.entities.inner.len() - 2) as usize, self.entities.inner.len() as usize),
    {
        self.entities.bludger_ids()
    }


    /// The owning side's wizards, in slot order.
    pub fn my_wizards(&self) -> (r: Vec<Entity>)
        requires
            self.entities.inner.len() >= 6,
        ensures
            self.entities.my_id == 0 ==> r@ == self.entities.inner@.subrange(0, 2),
            self.entities.my_id != 0 ==> r@ == self.entities.inner@.subrange(2, 4),
    {
        self.entities.my_wizards()
    }

    /// The opposing side's wizards, in slot order.
    pub fn enemy_wizards(&self) -> (r: Vec<Entity>)
        requires
            self.entities.inner.len() >= 6,
        ensures
            self.entities.my_id == 1 ==> r@ == self.entities.inner@.subrange(0, 2),
            self.entities.my_id != 1 ==> r@ == self.entities.inner@.subrange(2, 4),
    {
        self.entities.enemy_wizards()
    }

    /// The match's snaffles, dead or alive, in slot order.
    pub fn snaffles(&self) -> (r: Vec<Entity>)
        requires
            self.entities.inner.len() >= 6,
        ensures
            r@ == self.entities.inner@.subrange(4, self.entities.inner.len() - 2),
    {
        self.entities.snaffles()
    }

    /// The two bludgers, in slot order.
    pub fn bludgers(&self) -> (r: Vec<Entity>)
        requires
            self.entities.inner.len() >= 6,
        ensures
            r@ == self.entities.inner@.subrange(
                self.entities.inner.len() - 2,
                self.entities.inner.len() as int,
            ),
    {
        self.entities.bludgers()
    }

    /// How this state looks from the other side: `b` is `a` with the
    /// owning side, factions, scores, mana and goals relabeled, and
    /// everything else untouched.
    pub open spec fn flipped_to(a: TurnState, b: TurnState) -> bool {
        &&& b.round == a.round
        &&& b.winner == (match a.winner {
            Option::Some(w) => Option::Some(w.invert_spec()),
            Option::None => Option::<Faction>::None,
        })
        &&& b.my_id == (if a.my_id == 0 { 1int } else { 0int })
        &&& b.my_mp == a.enemy_mp
        &&& b.enemy_mp == a.my_mp
        &&& b.my_score == a.enemy_score
        &&& b.enemy_score == a.my_score
        &&& b.my_goal == a.enemy_goal
        &&& b.enemy_goal == a.my_goal
        &&& b.active_spells@ == a.active_spells@
        &&& b.entities.my_id == b.my_id
        &&& b.entities.inner.len() == a.entities.inner.len()
        &&& forall|i: int|
            0 <= i < TOTAL_WIZARD_COUNT && i < a.entities.inner.len()
                ==> #[trigger] b.entities.inner[i] == (Entity {
                faction: a.entities.inner[i].faction.invert_spec(),
                ..a.entities.inner[i]
            })
        &&& forall|i: int|
            TOTAL_WIZARD_COUNT <= i < a.entities.inner.len()
                ==> #[trigger] b.entities.inner[i] == a.entities.inner[i]
    }

    /// Swaps the two sides' roles in place: winner label, wizard factions,
    /// goals, scores, mana and the owning side identifier.  Pure
    /// relabeling; no position, velocity, link or ledger entry changes.
    pub fn invert(&mut self)
        requires
            old(self).wf(),
        ensures
            final(self).wf(),
            TurnState::flipped_to(*old(self), *final(self)),
    {
        self.winner = match self.winner {
            Option::Some(w) => Option::Some(w.invert()),
            Option::None => Option::None,
        };
        let ghost pre = *self;
        let mut i: usize = 0;
        while i < 4
            invariant
                i <= 4,
                self.entities.inner.len() == pre.entities.inner.len(),
                self.entities.inner.len() >= 6,
                self.entities.my_id == pre.entities.my_id,
                forall|k: int|
                    0 <= k < i ==> #[trigger] self.entities.inner[k] == (Entity {
                        faction: pre.entities.inner[k].faction.invert_spec(),
                        ..pre.entities.inner[k]
                    }),
                forall|k: int|
                    i <= k < self.entities.inner.len() ==> #[trigger] self.entities.inner[k]
                        == pre.entities.inner[k],
                self.round == pre.round,
                self.winner == pre.winner,
                self.my_id == pre.my_id,
                self.my_mp == pre.my_mp,
                self.enemy_mp == pre.enemy_mp,
                self.my_score == pre.my_score,
                self.enemy_score == pre.enemy_score,
                self.active_spells@ == pre.active_spells@,
                self.my_goal == pre.my_goal,
                self.enemy_goal == pre.enemy_goal,
            decreases 4 - i,
        {
            let mut e = self.entities.get(i);
            e.faction = e.faction.invert();
            self.entities.set(i, e);
            i = i + 1;
        }
        let tmp_goal = self.my_goal;
        self.my_goal = self.enemy_goal;
        self.enemy_goal = tmp_goal;
        let tmp_score = self.my_score;
        self.my_score = self.enemy_score;
        self.enemy_score = tmp_score;
        let tmp_mp = self.my_mp;
        self.my_mp = self.enemy_mp;
        self.enemy_mp = tmp_mp;
        self.my_id = if self.my_id == 0 {
            1
        } else {
            0
        };
        self.entities.my_id = self.my_id;
        proof {
            let a = *old(self);
            let b = *self;
            assert forall|k: int| 0 <= k < b.entities.inner.len() implies {
                let ea = a.entities.inner[k];
                let eb = #[trigger] b.entities.inner[k];
                &&& eb.id == ea.id
                &&& eb.kind == ea.kind
                &&& eb.sub_id == ea.sub_id
                &&& eb.in_range()
                &&& eb.linked == ea.linked
                &&& (k < 4 ==> eb.faction == ea.faction.invert_spec())
                &&& (4 <= k ==> eb.faction == ea.faction)
            } by {
                if k < 4 {
                    assert(b.entities.inner[k] == (Entity {
                        faction: a.entities.inner[k].faction.invert_spec(),
                        ..a.entities.inner[k]
                    }));
                } else {
                    assert(b.entities.inner[k] == a.entities.inner[k]);
                }
            }
            assert forall|k: int| 0 <= k < b.entities.inner.len() implies
                (#[trigger] b.entities.inner[k]).id == k
                && b.entities.inner[k].kind
                    == crate::store::kind_at(b.entities.inner.len() as int, k)
                && (k < 4 ==> b.entities.inner[k].sub_id == k % 2)
                && (k < 4 ==> b.entities.inner[k].faction
                    == wizard_faction(b.my_id as int, k))
                && (4 <= k ==> b.entities.inner[k].faction == Faction::Neutral) by {
                assert(a.entities.inner[k].id == k);
                if k < 4 {
                    assert(a.entities.inner[k].faction == wizard_faction(a.my_id as int, k));
                }
            }
            assert(b.entities.layout_wf());
            crate::store::lemma_links_preserved(a.entities, b.entities);
            assert forall|i2: int| 0 <= i2 < b.active_spells.len() implies
                #[trigger] b.spell_ok(i2) by {
                assert(a.spell_ok(i2));
            }
        }
    }
}

/// Flipping a state twice restores it: every field of `c` equals the
/// corresponding field of `a` whenever `b` is `a` flipped and `c` is `b`
/// flipped.
pub proof fn lemma_flip_involutive(a: TurnState, b: TurnState, c: TurnState)
    requires
        a.wf(),
        TurnState::flipped_to(a, b),
        TurnState::flipped_to(b, c),
    ensures
        c.round == a.round,
        c.winner == a.winner,
        c.my_id == a.my_id,
        c.my_mp == a.my_mp,
        c.enemy_mp == a.enemy_mp,
        c.my_score == a.my_score,
        c.enemy_score == a.enemy_score,
        c.my_goal == a.my_goal,
        c.enemy_goal == a.enemy_goal,
        c.active_spells@ == a.active_spells@,
        c.entities.my_id == a.entities.my_id,
        c.entities.inner@ == a.entities.inner@,
{
    assert forall|i: int| 0 <= i < c.entities.inner.len() implies
        #[trigger] c.entities.inner[i] == a.entities.inner[i] by {
        if i < 4 {
            assert(b.entities.inner[i] == (Entity {
                faction: a.entities.inner[i].faction.invert_spec(),
                ..a.entities.inner[i]
            }));
            assert(c.entities.inner[i] == (Entity {
                faction: b.entities.inner[i].faction.invert_spec(),
                ..b.entities.inner[i]
            }));
        }
    }
    assert(c.entities.inner@ =~= a.entities.inner@);
}

} // verus!
