//! Fixed rules of the game: field geometry, per-kind physical constants,
//! spell costs and durations, and the engine's saturation bounds.

use vstd::prelude::*;

verus! {

/// Wizards per team.
pub const WIZARD_COUNT: usize = 2;
/// Wizards on the field.
pub const TOTAL_WIZARD_COUNT: usize = 4;
/// Bludgers on the field.
pub const BLUDGER_COUNT: usize = 2;
/// Largest number of snaffles a match can start with.
pub const MAX_SNAFFLE_COUNT: usize = 7;
/// Largest number of entity slots a store can hold.
pub const MAX_ENTITY_COUNT: usize = 13;

pub const WIZARD_RADIUS: i64 = 400;
pub const SNAFFLE_RADIUS: i64 = 150;
pub const BLUDGER_RADIUS: i64 = 200;
pub const POLE_RADIUS: i64 = 300;

/// Mass of each kind, in half units, so that every mass is an integer:
/// wizards weigh 1, snaffles 1/2, bludgers 8.
pub const WIZARD_MASS_X2: i64 = 2;
pub const SNAFFLE_MASS_X2: i64 = 1;
pub const BLUDGER_MASS_X2: i64 = 16;

pub const BORDER_TOP_Y: i64 = 0;
pub const BORDER_BOTTOM_Y: i64 = 7500;
pub const BORDER_LEFT_X: i64 = 0;
pub const BORDER_RIGHT_X: i64 = 16000;
pub const GOAL_Y: i64 = 3750;
pub const GOAL_RADIUS: i64 = 2000;

pub const FLIPENDO_COST: i64 = 20;
pub const ACCIO_COST: i64 = 20;
pub const OBLIVIATE_COST: i64 = 5;
pub const PETRIFICUS_COST: i64 = 10;
pub const FLIPENDO_DURATION: u64 = 3;
pub const ACCIO_DURATION: u64 = 6;
pub const OBLIVIATE_DURATION: u64 = 3;
pub const PETRIFICUS_DURATION: u64 = 1;

/// Mana gained per turn, and the cap it accumulates to.
pub const MANA_CAP: i64 = 100;
/// The round at which the match is decided on points.
pub const LAST_ROUND: u64 = 200;

/// Thrust a bludger applies toward its chosen wizard every turn.
pub const BLUDGER_THRUST: i64 = 1000;
/// Smallest impulse a non-pickup collision may transfer.
pub const IMPULSE_FLOOR: i64 = 100;

/// Saturation bound on every position and velocity component.  The field
/// is 16000 by 7500, so the bound is never reached in play; it exists so
/// that every arithmetic step of the engine has a proved range.
pub const COORD_LIMIT: i64 = 536870912;

/// Saturation bound on a single impulse component, again far beyond
/// anything reachable from in-range velocities.
pub const IMPULSE_LIMIT: i64 = 1099511627776;

/// One turn measured on the engine's time grid: event times are quantized
/// to multiples of 1/TIME_GRID of the turn window.
pub const TIME_GRID: u64 = 4294967296;

/// Most events one turn's collision loop will resolve.  Real turns see a
/// handful; the bound exists so that the loop provably terminates even on
/// degenerate states that generate zero-time events forever.  Once it is
/// reached, the rest of the turn window is consumed with no further
/// events.
pub const EVENT_CAP: usize = 16384;

} // verus!
