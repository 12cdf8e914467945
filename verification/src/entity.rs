//! The bodies of the game: wizards, snaffles and bludgers, each with its
//! kind's fixed mass, radius and friction, a position and velocity, a team
//! affiliation, and the possession/targeting link.

use vstd::prelude::*;
use crate::consts::{
    WIZARD_RADIUS, SNAFFLE_RADIUS, BLUDGER_RADIUS, WIZARD_MASS_X2, SNAFFLE_MASS_X2,
    BLUDGER_MASS_X2, COORD_LIMIT,
};
use crate::vec2::Vec2;
use crate::num::{rnd, cl_coord, sqrt_floor, lemma_sqrt_floor_unique, div_round, clamp_coord};

verus! {

/// Which side an entity belongs to.
#[derive(Clone, Copy, Debug, PartialEq, Eq, Structural)]
pub enum Faction {
    Me,
    Enemy,
    Neutral,
}

impl Faction {
    /// The faction as seen from the other side.
    pub open spec fn invert_spec(self) -> Faction {
        match self {
            Faction::Me => Faction::Enemy,
            Faction::Enemy => Faction::Me,
            Faction::Neutral => Faction::Neutral,
        }
    }

    /// Relabels the faction as seen from the other side.
    #[verifier::when_used_as_spec(invert_spec)]
    pub fn invert(self) -> (r: Faction)
        ensures
            r == self.invert_spec(),
    {
        match self {
            Faction::Me => Faction::Enemy,
            Faction::Enemy => Faction::Me,
            Faction::Neutral => Faction::Neutral,
        }
    }
}

/// The kind of a body; it never changes, and fixes mass, radius and
/// friction.
#[derive(Clone, Copy, Debug, PartialEq, Eq, Structural)]
pub enum EntityType {
    Wizard,
    Snaffle,
    Bludger,
}

impl EntityType {
    /// Twice the mass of this kind, which makes every mass an integer.
    pub open spec fn mass_x2_spec(self) -> int {
        match self {
            EntityType::Wizard => WIZARD_MASS_X2 as int,
            EntityType::Snaffle => SNAFFLE_MASS_X2 as int,
            EntityType::Bludger => BLUDGER_MASS_X2 as int,
        }
    }

    /// Twice the mass of this kind.
    pub fn mass_x2(self) -> (r: i64)
        ensures
            r == self.mass_x2_spec(),
            1 <= r <= 16,
    {
        match self {
            EntityType::Wizard => WIZARD_MASS_X2,
            EntityType::Snaffle => SNAFFLE_MASS_X2,
            EntityType::Bludger => BLUDGER_MASS_X2,
        }
    }

    /// Numerator of the per-turn friction factor.
    pub open spec fn friction_num_spec(self) -> int {
        match self {
            EntityType::Wizard => 3,
            EntityType::Snaffle => 3,
            EntityType::Bludger => 9,
        }
    }

    /// Denominator of the per-turn friction factor.
    pub open spec fn friction_den_spec(self) -> int {
        match self {
            EntityType::Wizard => 4,
            EntityType::Snaffle => 4,
            EntityType::Bludger => 10,
        }
    }

    /// The per-turn friction factor, as an exact fraction: 3/4 for wizards
    /// and snaffles, 9/10 for bludgers.
    pub fn friction(self) -> (r: (i64, i64))
        ensures
            r.0 == self.friction_num_spec(),
            r.1 == self.friction_den_spec(),
    {
        match self {
            EntityType::Wizard => (3, 4),
            EntityType::Snaffle => (3, 4),
            EntityType::Bludger => (9, 10),
        }
    }

    /// The radius of this kind.
    pub open spec fn radius_spec(self) -> int {
        match self {
            EntityType::Wizard => WIZARD_RADIUS as int,
            EntityType::Snaffle => SNAFFLE_RADIUS as int,
            EntityType::Bludger => BLUDGER_RADIUS as int,
        }
    }

    /// The radius of this kind.
    pub fn radius(self) -> (r: i64)
        ensures
            r == self.radius_spec(),
            150 <= r <= 400,
    {
        match self {
            EntityType::Wizard => WIZARD_RADIUS,
            EntityType::Snaffle => SNAFFLE_RADIUS,
            EntityType::Bludger => BLUDGER_RADIUS,
        }
    }
}

/// One physical body of the simulation.
#[derive(Clone, Copy, Debug)]
pub struct Entity {
    /// Stable global index of this entity in the store.
    pub id: usize,
    /// Per-kind sub-index, e.g. which of a team's wizards.
    pub sub_id: usize,
    pub kind: EntityType,
    pub pos: Vec2,
    pub vel: Vec2,
    pub faction: Faction,
    /// The possession or targeting relation: a wizard holding a snaffle
    /// and that snaffle point at each other; a bludger points at the
    /// wizard it is homing on.
    pub linked: Option<usize>,
    /// Turns during which this wizard may not pick a snaffle up again.
    pub snaffle_timeout: i64,
    /// Set once a snaffle has crossed a goal line and left play.
    pub dead: bool,
}

impl Entity {
    /// Position and velocity are inside the engine's coordinate range.
    pub open spec fn in_range(self) -> bool {
        self.pos.bounded(COORD_LIMIT as int) && self.vel.bounded(COORD_LIMIT as int)
    }

    pub fn new_wizard(
        id: usize,
        sub_id: usize,
        pos: Vec2,
        vel: Vec2,
        faction: Faction,
        snaffle: Option<usize>,
    ) -> (r: Entity)
        ensures
            r == (Entity {
                id,
                sub_id,
                kind: EntityType::Wizard,
                pos,
                vel,
                faction,
                linked: snaffle,
                snaffle_timeout: if snaffle is Some { 3int as i64 } else { 0int as i64 },
                dead: false,
            }),
    {
        Entity {
            id,
            sub_id,
            kind: EntityType::Wizard,
            pos,
            vel,
            faction,
            snaffle_timeout: if snaffle.is_some() { 3 } else { 0 },
            linked: snaffle,
            dead: false,
        }
    }

    pub fn new_snaffle(id: usize, sub_id: usize, pos: Vec2, vel: Vec2) -> (r: Entity)
        ensures
            r == (Entity {
                id,
                sub_id,
                kind: EntityType::Snaffle,
                pos,
                vel,
                faction: Faction::Neutral,
                linked: None,
                snaffle_timeout: 0int as i64,
                dead: false,
            }),
    {
        Entity {
            id,
            sub_id,
            kind: EntityType::Snaffle,
            pos,
            vel,
            faction: Faction::Neutral,
            snaffle_timeout: 0,
            linked: None,
            dead: false,
        }
    }

    pub fn new_bludger(id: usize, sub_id: usize, pos: Vec2, vel: Vec2) -> (r: Entity)
        ensures
            r == (Entity {
                id,
                sub_id,
                kind: EntityType::Bludger,
                pos,
                vel,
                faction: Faction::Neutral,
                linked: None,
                snaffle_timeout: 0int as i64,
                dead: false,
            }),
    {
        Entity {
            id,
            sub_id,
            kind: EntityType::Bludger,
            pos,
            vel,
            faction: Faction::Neutral,
            snaffle_timeout: 0,
            linked: None,
            dead: false,
        }
    }

    /// Whether this entity is of the given kind.
    pub fn is_a(&self, kind: EntityType) -> (r: bool)
        ensures
            r == (self.kind == kind),
    {
        self.kind == kind
    }

    /// Whether this entity belongs to the given faction.
    pub fn aligned_with(&self, faction: Faction) -> (r: bool)
        ensures
            r == (self.faction == faction),
    {
        self.faction == faction
    }

    /// The velocity gained from a force vector: the force divided by the
    /// entity's mass, each component rounded to the nearest integer.
    pub open spec fn vel_after_thrust(self, thrust: Vec2) -> Vec2 {
        Vec2 {
            x: cl_coord(self.vel.x + rnd(2 * thrust.x, self.kind.mass_x2_spec())) as i64,
            y: cl_coord(self.vel.y + rnd(2 * thrust.y, self.kind.mass_x2_spec())) as i64,
        }
    }

    /// Accelerates the entity by a force vector, divided by its mass.
    pub fn apply_thrust(&mut self, thrust: Vec2)
        ensures
            *final(self) == (Entity { vel: old(self).vel_after_thrust(thrust), ..*old(self) }),
    {
        let m2 = self.kind.mass_x2();
        let dx = div_round(2 * (thrust.x as i128), m2 as i128);
        let dy = div_round(2 * (thrust.y as i128), m2 as i128);
        self.vel.x = clamp_coord(self.vel.x as i128 + dx);
        self.vel.y = clamp_coord(self.vel.y as i128 + dy);
    }

    /// Accelerates the entity toward a target point with the given thrust
    /// magnitude.  The force is the unit vector toward the target, length
    /// rounded down, scaled by the magnitude; aiming at the entity's own
    /// position applies no force.
    pub fn apply_thrust_towards(&mut self, towards: Vec2, thrust: i64)
        requires
            old(self).pos.bounded(COORD_LIMIT as int),
            towards.bounded(COORD_LIMIT as int),
            -0x10_0000 <= thrust <= 0x10_0000,
        ensures
            ({
                let dx = towards.x - old(self).pos.x;
                let dy = towards.y - old(self).pos.y;
                let n = sqrt_floor(dx * dx + dy * dy);
                if n == 0 {
                    *final(self) == *old(self)
                } else {
                    *final(self) == (Entity {
                        vel: Vec2 {
                            x: cl_coord(old(self).vel.x
                                + rnd(2 * dx * thrust, n * old(self).kind.mass_x2_spec())) as i64,
                            y: cl_coord(old(self).vel.y
                                + rnd(2 * dy * thrust, n * old(self).kind.mass_x2_spec())) as i64,
                        },
                        ..*old(self)
                    })
                }
            }),
    {
        let d = towards.sub(self.pos);
        let n = d.len();
        proof {
            lemma_sqrt_floor_unique(n as int, d.x * d.x + d.y * d.y);
        }
        if n == 0 {
            return;
        }
        let m2 = self.kind.mass_x2();
        proof {
            assert(0 <= n as int && (n as int) * (n as int) <= d.x * d.x + d.y * d.y);
            assert((n as int) <= 0x1_0000_0000) by (nonlinear_arith)
                requires
                    (n as int) * (n as int) <= d.x * d.x + d.y * d.y,
                    -0x8000_0000 <= d.x <= 0x8000_0000,
                    -0x8000_0000 <= d.y <= 0x8000_0000,
                    n >= 0,
            ;
            assert(-0x1_0000_0000_0000_0000 <= 2 * (d.x as int) * (thrust as int)
                <= 0x1_0000_0000_0000_0000
                && -0x1_0000_0000_0000_0000 <= 2 * (d.y as int) * (thrust as int)
                <= 0x1_0000_0000_0000_0000
                && 0 < (n as int) * (m2 as int) <= 0x1_0000_0000_0000_0000)
                by (nonlinear_arith)
                requires
                    -0x8000_0000 <= d.x <= 0x8000_0000,
                    -0x8000_0000 <= d.y <= 0x8000_0000,
                    -0x10_0000 <= thrust <= 0x10_0000,
                    0 < n <= 0x1_0000_0000,
                    1 <= m2 <= 16,
            ;
            assert(0 < n as int) by {
                assert(n != 0);
            }
        }
        let dvx = div_round(2 * (d.x as i128) * (thrust as i128), (n as i128) * (m2 as i128));
        let dvy = div_round(2 * (d.y as i128) * (thrust as i128), (n as i128) * (m2 as i128));
        self.vel.x = clamp_coord(self.vel.x as i128 + dvx);
        self.vel.y = clamp_coord(self.vel.y as i128 + dvy);
    }
}

} // verus!
