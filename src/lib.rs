//! Authoritative simulation core of an arena game server: entity store,
//! physics-bridge bookkeeping, collision and mass transfer, tick scheduling
//! and input validation, all over fixed-point integer quantities.
//!
//! Lengths are measured in milli-units: one world unit is `MILLI` of them.
//! Velocities are milli-units per second; input axes are thousandths.

pub mod config;
pub mod game_math;
pub mod vector;
pub mod entity;
pub mod collision;
pub mod world;
pub mod spawn;
pub mod input;
pub mod physics;
pub mod movement;
