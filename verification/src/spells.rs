//! Timed spell effects: each kind has a fixed mana cost and duration, and
//! an active effect remembers its caster, target and the round it was cast.

use vstd::prelude::*;
use crate::consts::{
    FLIPENDO_COST, ACCIO_COST, OBLIVIATE_COST, PETRIFICUS_COST, FLIPENDO_DURATION,
    ACCIO_DURATION, OBLIVIATE_DURATION, PETRIFICUS_DURATION,
};

verus! {

/// The four spell kinds.
#[derive(Clone, Copy, Debug, PartialEq, Eq, Structural)]
pub enum SpellType {
    Flipendo,
    Accio,
    Obliviate,
    Petrificus,
}

impl SpellType {
    /// How many turns an effect of this kind stays active.
    pub open spec fn duration_spec(self) -> int {
        match self {
            SpellType::Flipendo => FLIPENDO_DURATION as int,
            SpellType::Accio => ACCIO_DURATION as int,
            SpellType::Obliviate => OBLIVIATE_DURATION as int,
            SpellType::Petrificus => PETRIFICUS_DURATION as int,
        }
    }

    /// How many turns an effect of this kind stays active.
    pub fn duration(self) -> (r: u64)
        ensures
            r == self.duration_spec(),
            1 <= r <= 6,
    {
        match self {
            SpellType::Flipendo => FLIPENDO_DURATION,
            SpellType::Accio => ACCIO_DURATION,
            SpellType::Obliviate => OBLIVIATE_DURATION,
            SpellType::Petrificus => PETRIFICUS_DURATION,
        }
    }

    /// The mana cost of casting this kind.
    pub open spec fn cost_spec(self) -> int {
        match self {
            SpellType::Flipendo => FLIPENDO_COST as int,
            SpellType::Accio => ACCIO_COST as int,
            SpellType::Obliviate => OBLIVIATE_COST as int,
            SpellType::Petrificus => PETRIFICUS_COST as int,
        }
    }

    /// The mana cost of casting this kind.
    pub fn cost(self) -> (r: i64)
        ensures
            r == self.cost_spec(),
            5 <= r <= 20,
    {
        match self {
            SpellType::Flipendo => FLIPENDO_COST,
            SpellType::Accio => ACCIO_COST,
            SpellType::Obliviate => OBLIVIATE_COST,
            SpellType::Petrificus => PETRIFICUS_COST,
        }
    }
}

/// One active timed effect, tied to a caster and a target.
#[derive(Clone, Copy, Debug)]
pub struct Spell {
    pub caster_id: usize,
    pub target_id: usize,
    pub kind: SpellType,
    /// The round the effect was cast; it stays active while
    /// `round - casted < duration`.
    pub casted: u64,
    pub duration: u64,
}

impl Spell {
    pub fn new(kind: SpellType, caster_id: usize, target_id: usize, round: u64) -> (r: Spell)
        ensures
            r == (Spell {
                caster_id,
                target_id,
                kind,
                casted: round,
                duration: (kind.duration_spec()) as u64,
            }),
    {
        Spell { kind, caster_id, target_id, casted: round, duration: kind.duration() }
    }
}

} // verus!
