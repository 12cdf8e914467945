//! A deterministic turn engine for a two-team arena game played with
//! wizards, snaffles and bludgers.
//!
//! All coordinates, velocities and scores are integers, and event times
//! inside a turn are exact integer fractions, so every rule of the engine
//! is stated and proved as ordinary integer arithmetic: the earliest-contact
//! geometry solver, the event-ordered collision loop, possession pickups,
//! spell forces, friction, scoring and the win condition.

pub mod consts;
pub mod num;
pub mod vec2;
pub mod math;
pub mod entity;
pub mod spells;
pub mod store;
pub mod actions;
pub mod state;
pub mod motion;
pub mod engine;
pub mod draw;
