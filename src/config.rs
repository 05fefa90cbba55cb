use vstd::prelude::*;

verus! {

/// Fixed-point resolution: sub-units per world unit.
pub const MILLI: i64 = 1000;

/// Largest world edge, in world units, that the fixed-point arithmetic admits.
pub const MAX_WORLD_SIZE: u64 = 1_000_000_000;

/// Default world edge, in world units.
pub const DEFAULT_WORLD_SIZE: u64 = 1000;

/// Mass a freshly spawned player entity starts with.
pub const START_PLAYER_MASS: u32 = 15;

/// Horizontal movement speed of a platformer player, in milli-units per second.
pub const PLAYER_MOVE_SPEED: i64 = 5000;

/// Jump impulse strength, in milli-units per second.
pub const PLAYER_JUMP_FORCE: i64 = 8000;

/// Elimination threshold: a player entity eliminates another only when
/// `smaller / larger < SAFE_RATIO_NUM / SAFE_RATIO_DEN` (that is, 0.85).
pub const SAFE_RATIO_NUM: u64 = 17;

pub const SAFE_RATIO_DEN: u64 = 20;

/// Horizontal axis dead zone, in thousandths.
pub const INPUT_DEADZONE: i64 = 10;

/// Grounded iff the vertical speed is at most this many milli-units per second.
pub const GROUND_EPSILON: i64 = 100;

/// Number of food entities the spawner drives the world towards.
pub const TARGET_FOOD_COUNT: u64 = 600;

pub const FOOD_MASS_MIN: u32 = 2;

pub const FOOD_MASS_MAX: u32 = 4;

/// Fixed physics timestep, in milliseconds.
pub const PHYSICS_STEP_INTERVAL_MS: u64 = 20;

/// Interval of the food spawner, in milliseconds.
pub const FOOD_SPAWN_INTERVAL_MS: u64 = 500;

/// Interval of the circle-mode movement tick, in milliseconds.
pub const MOVE_TICK_INTERVAL_MS: u64 = 50;

/// World configuration singleton.
#[derive(Clone, Copy, Debug, PartialEq, Eq, Structural)]
pub struct Config {
    pub id: u32,
    /// Edge length of the square world, in world units.
    pub world_size: u64,
}

impl Config {
    pub open spec fn wf(&self) -> bool {
        1 <= self.world_size <= MAX_WORLD_SIZE
    }

    /// World edge in milli-units.
    pub open spec fn extent(&self) -> int {
        self.world_size * MILLI
    }

    pub fn new(world_size: u64) -> (r: Config)
        requires
            1 <= world_size <= MAX_WORLD_SIZE,
        ensures
            r.id == 0,
            r.world_size == world_size,
            r.wf(),
    {
        Config { id: 0, world_size }
    }

    /// World edge in milli-units.
    pub fn extent_milli(&self) -> (r: i64)
        requires
            self.wf(),
        ensures
            r == self.extent(),
    {
        (self.world_size as i64) * MILLI
    }
}

} // verus!
