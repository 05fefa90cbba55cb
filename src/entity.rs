use vstd::prelude::*;
use crate::vector::DbVector2;

verus! {

/// Largest magnitude of a coordinate that the collision arithmetic admits.
pub const COORD_BOUND: i64 = 0x4000_0000_0000_0000;

/// Kind of a simulated object.
#[derive(Clone, Copy, Debug, PartialEq, Eq, Structural)]
pub enum EntityType {
    Player,
    Food,
    Circle,
}

/// A simulated world object.
#[derive(Clone, Copy, Debug, PartialEq, Eq, Structural)]
pub struct Entity {
    pub entity_id: u32,
    /// Position in milli-units.
    pub position: DbVector2,
    /// Velocity in milli-units per second; zero for entities without a body.
    pub velocity: DbVector2,
    pub mass: u32,
    pub entity_type: EntityType,
}

/// Marks an entity as food.
#[derive(Clone, Copy, Debug, PartialEq, Eq, Structural)]
pub struct Food {
    pub entity_id: u32,
}

/// Circle-mode attachment: a player-owned entity steered by a direction.
#[derive(Clone, Copy, Debug, PartialEq, Eq, Structural)]
pub struct Circle {
    pub entity_id: u32,
    pub player_id: u32,
    /// Direction in thousandths, of length at most one unit.
    pub direction: DbVector2,
    /// Distance covered per movement tick at full direction, in milli-units.
    pub speed: i64,
    /// Time of the last split, in microseconds since the epoch.
    pub last_split_time: i64,
}

/// Platformer attachment: movement parameters and jump availability.
#[derive(Clone, Copy, Debug, PartialEq, Eq, Structural)]
pub struct MovementController {
    pub entity_id: u32,
    pub player_id: u32,
    /// Horizontal speed, in milli-units per second.
    pub move_speed: i64,
    /// Jump impulse per unit of mass, in milli-units per second.
    pub jump_force: i64,
    pub can_jump: bool,
}

/// How a physics body moves.
#[derive(Clone, Copy, Debug, PartialEq, Eq, Structural)]
pub enum BodyType {
    Dynamic,
    Static,
    KinematicPositionBased,
    KinematicVelocityBased,
}

/// Bridge-side record of an entity's rigid body.
#[derive(Clone, Copy, Debug, PartialEq, Eq, Structural)]
pub struct PhysicsBody {
    pub entity_id: u32,
    /// Opaque handle of the body in the physics engine.
    pub handle: u64,
    pub body_type: BodyType,
    pub on_ground: bool,
    pub collision_groups: u16,
}

/// Validated per-player intent.
#[derive(Clone, Copy, Debug, PartialEq, Eq, Structural)]
pub struct PlayerInput {
    pub player_id: u32,
    /// Horizontal axis in thousandths, within `[-1000, 1000]`.
    pub horizontal_axis: i64,
    /// Circle-mode direction in thousandths, of length at most one unit.
    pub direction: DbVector2,
    pub jump_pressed: bool,
    pub input_sequence: u32,
}

/// Both coordinates lie within `COORD_BOUND` of the origin.
pub open spec fn in_bounds(v: DbVector2) -> bool {
    -COORD_BOUND <= v.x <= COORD_BOUND && -COORD_BOUND <= v.y <= COORD_BOUND
}

} // verus!
