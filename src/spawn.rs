use vstd::prelude::*;
use crate::config::{
    FOOD_MASS_MAX, FOOD_MASS_MIN, PLAYER_JUMP_FORCE, PLAYER_MOVE_SPEED, TARGET_FOOD_COUNT,
};
use crate::entity::{
    BodyType, Circle, Entity, EntityType, Food, MovementController, PhysicsBody, PlayerInput,
};
use crate::game_math::clamp;
use crate::vector::DbVector2;
use crate::world::{World, WorldError, clamp_point, has_entity, lookup};

verus! {

/// Collision groups given to a new body.
pub const DEFAULT_COLLISION_GROUPS: u16 = 1;

/// Distance kept from the side walls when placing a new player, in milli-units.
pub const SPAWN_MARGIN: i64 = 100_000;

/// Height at which new players appear, in milli-units.
pub const SPAWN_HEIGHT: i64 = 100_000;

/// Random placement and mass proposed for one food entity.
#[derive(Clone, Copy, Debug, PartialEq, Eq, Structural)]
pub struct FoodSeed {
    pub position: DbVector2,
    pub mass: u32,
}

pub open spec fn body_mapped(s: Seq<PhysicsBody>, id: u32) -> bool {
    exists|k: int| 0 <= k < s.len() && #[trigger] s[k].entity_id == id
}

pub open spec fn handle_mapped(s: Seq<PhysicsBody>, handle: u64) -> bool {
    exists|k: int| 0 <= k < s.len() && #[trigger] s[k].handle == handle
}

pub open spec fn has_input(s: Seq<PlayerInput>, player_id: u32) -> bool {
    exists|k: int| 0 <= k < s.len() && #[trigger] s[k].player_id == player_id
}

/// Food mass brought into `[FOOD_MASS_MIN, FOOD_MASS_MAX]`.
pub open spec fn food_mass(m: u32) -> u32 {
    if m < FOOD_MASS_MIN {
        FOOD_MASS_MIN
    } else if m > FOOD_MASS_MAX {
        FOOD_MASS_MAX
    } else {
        m
    }
}

/// How many food entities one spawn tick adds: none without players,
/// otherwise as many as the seeds allow up to the target, and no more than
/// the ids left.
pub open spec fn food_to_spawn(players: int, food: int, seeds: int, next_id: int) -> int {
    if players == 0 || food >= TARGET_FOOD_COUNT {
        0
    } else {
        let want = TARGET_FOOD_COUNT - food;
        let n = if seeds < want { seeds } else { want };
        let ids = u32::MAX - next_id;
        if n < ids { n } else { ids }
    }
}

impl World {
    /// Where a new player appears: the drawn `x` kept `SPAWN_MARGIN` away
    /// from the side walls (the middle, in a world too narrow for that), at
    /// height `SPAWN_HEIGHT`.
    pub fn spawn_point(&self, x: i64) -> (r: DbVector2)
        requires
            self.config.wf(),
        ensures
            r.y == SPAWN_HEIGHT,
            r.x == if 2 * SPAWN_MARGIN <= self.config.extent() {
                clamp(x as int, SPAWN_MARGIN as int, self.config.extent() - SPAWN_MARGIN)
            } else {
                self.config.extent() / 2
            },
    {
        let extent = self.config.extent_milli();
        let px = if 2 * SPAWN_MARGIN <= extent {
            if x < SPAWN_MARGIN {
                SPAWN_MARGIN
            } else if x > extent - SPAWN_MARGIN {
                extent - SPAWN_MARGIN
            } else {
                x
            }
        } else {
            extent / 2
        };
        DbVector2 { x: px, y: SPAWN_HEIGHT }
    }

    /// Records the physics body of an entity. Fails, with no effect, where the
    /// entity is missing, already has a body, or the handle is taken.
    pub fn create_body(&mut self, entity_id: u32, handle: u64, body_type: BodyType) -> (r: Result<(), WorldError>)
        requires
            old(self).wf(),
        ensures
            final(self).wf(),
            !has_entity(old(self).entities@, entity_id) ==> r == Err::<(), WorldError>(WorldError::UnknownEntity),
            has_entity(old(self).entities@, entity_id) && body_mapped(old(self).bodies@, entity_id)
                ==> r == Err::<(), WorldError>(WorldError::EntityAlreadyMapped),
            has_entity(old(self).entities@, entity_id) && !body_mapped(old(self).bodies@, entity_id)
                && handle_mapped(old(self).bodies@, handle)
                ==> r == Err::<(), WorldError>(WorldError::HandleAlreadyMapped),
            has_entity(old(self).entities@, entity_id) && !body_mapped(old(self).bodies@, entity_id)
                && !handle_mapped(old(self).bodies@, handle) ==> r.is_ok(),
            r.is_ok() ==> final(self).bodies@ == old(self).bodies@.push(PhysicsBody {
                entity_id,
                handle,
                body_type,
                on_ground: false,
                collision_groups: DEFAULT_COLLISION_GROUPS,
            }),
            r.is_err() ==> final(self).bodies == old(self).bodies,
            final(self).config == old(self).config,
            final(self).next_entity_id == old(self).next_entity_id,
            final(self).entities == old(self).entities,
            final(self).foods == old(self).foods,
            final(self).circles == old(self).circles,
            final(self).controllers == old(self).controllers,
            final(self).inputs == old(self).inputs,
            final(self).players == old(self).players,
            final(self).phase == old(self).phase,
    {
        let k = match self.find_entity(entity_id) {
            Some(k) => k,
            None => return Err(WorldError::UnknownEntity),
        };
        if self.find_body(entity_id).is_some() {
            return Err(WorldError::EntityAlreadyMapped);
        }
        if self.find_handle(handle).is_some() {
            return Err(WorldError::HandleAlreadyMapped);
        }
        proof {
            assert(self.entities@[k as int].entity_id < self.next_entity_id);
        }
        self.bodies.push(
            PhysicsBody {
                entity_id,
                handle,
                body_type,
                on_ground: false,
                collision_groups: DEFAULT_COLLISION_GROUPS,
            },
        );
        Ok(())
    }

    /// Spawns a platformer player entity: the entity, its movement controller,
    /// its dynamic body under `handle`, and the player's input record where
    /// there was none. Fails, with no effect, on a zero mass, when ids run out
    /// or when the handle is taken.
    pub fn spawn_player_at(&mut self, player_id: u32, mass: u32, position: DbVector2, handle: u64) -> (r: Result<
        Entity,
        WorldError,
    >)
        requires
            old(self).wf(),
        ensures
            final(self).wf(),
            mass == 0 ==> r == Err::<Entity, WorldError>(WorldError::ZeroMass),
            mass > 0 && old(self).next_entity_id == u32::MAX ==> r == Err::<Entity, WorldError>(
                WorldError::IdsExhausted,
            ),
            mass > 0 && old(self).next_entity_id < u32::MAX && handle_mapped(old(self).bodies@, handle) ==> r
                == Err::<Entity, WorldError>(WorldError::HandleAlreadyMapped),
            mass > 0 && old(self).next_entity_id < u32::MAX && !handle_mapped(old(self).bodies@, handle)
                ==> r.is_ok(),
            r.is_err() ==> final(self).entities == old(self).entities && final(self).controllers
                == old(self).controllers && final(self).bodies == old(self).bodies && final(self).inputs
                == old(self).inputs,
            r matches Ok(e) ==> {
                &&& e == Entity {
                    entity_id: old(self).next_entity_id,
                    position: clamp_point(position, mass as int, old(self).config),
                    velocity: DbVector2 { x: 0, y: 0 },
                    mass,
                    entity_type: EntityType::Player,
                }
                &&& final(self).entities@ == old(self).entities@.push(e)
                &&& final(self).controllers@ == old(self).controllers@.push(MovementController {
                    entity_id: e.entity_id,
                    player_id,
                    move_speed: PLAYER_MOVE_SPEED,
                    jump_force: PLAYER_JUMP_FORCE,
                    can_jump: false,
                })
                &&& final(self).bodies@ == old(self).bodies@.push(PhysicsBody {
                    entity_id: e.entity_id,
                    handle,
                    body_type: BodyType::Dynamic,
                    on_ground: false,
                    collision_groups: DEFAULT_COLLISION_GROUPS,
                })
                &&& has_input(old(self).inputs@, player_id) ==> final(self).inputs == old(self).inputs
                &&& !has_input(old(self).inputs@, player_id) ==> final(self).inputs@ == old(self).inputs@.push(
                    PlayerInput {
                        player_id,
                        horizontal_axis: 0,
                        direction: DbVector2 { x: 0, y: 0 },
                        jump_pressed: false,
                        input_sequence: 0,
                    },
                )
            },
            final(self).config == old(self).config,
            final(self).foods == old(self).foods,
            final(self).circles == old(self).circles,
            final(self).players == old(self).players,
            final(self).phase == old(self).phase,
    {
        if mass == 0 {
            return Err(WorldError::ZeroMass);
        }
        if self.next_entity_id == u32::MAX {
            return Err(WorldError::IdsExhausted);
        }
        if self.find_handle(handle).is_some() {
            return Err(WorldError::HandleAlreadyMapped);
        }
        let id = match self.create(position, mass, EntityType::Player) {
            Ok(id) => id,
            Err(e) => return Err(e),
        };
        let e = self.entities[self.entities.len() - 1];
        let ghost c_old = self.controllers@;
        let ghost b_old = self.bodies@;
        self.controllers.push(
            MovementController {
                entity_id: id,
                player_id,
                move_speed: PLAYER_MOVE_SPEED,
                jump_force: PLAYER_JUMP_FORCE,
                can_jump: false,
            },
        );
        self.bodies.push(
            PhysicsBody {
                entity_id: id,
                handle,
                body_type: BodyType::Dynamic,
                on_ground: false,
                collision_groups: DEFAULT_COLLISION_GROUPS,
            },
        );
        proof {
            assert forall|k: int| 0 <= k < c_old.len() implies c_old[k].entity_id != id by {
                assert(c_old[k].entity_id < id);
            }
            assert forall|k: int| 0 <= k < b_old.len() implies b_old[k].entity_id != id by {
                assert(b_old[k].entity_id < id);
            }
        }
        if self.find_input(player_id).is_none() {
            self.inputs.push(
                PlayerInput {
                    player_id,
                    horizontal_axis: 0,
                    direction: DbVector2 { x: 0, y: 0 },
                    jump_pressed: false,
                    input_sequence: 0,
                },
            );
        }
        Ok(e)
    }

    /// Spawns a circle-mode entity owned by `player_id`, at rest, moving
    /// `speed` milli-units per movement tick once steered.
    pub fn spawn_circle_at(&mut self, player_id: u32, mass: u32, position: DbVector2, speed: i64, now: i64) -> (r:
        Result<Entity, WorldError>)
        requires
            old(self).wf(),
        ensures
            final(self).wf(),
            mass == 0 ==> r == Err::<Entity, WorldError>(WorldError::ZeroMass),
            mass > 0 && old(self).next_entity_id == u32::MAX ==> r == Err::<Entity, WorldError>(
                WorldError::IdsExhausted,
            ),
            mass > 0 && old(self).next_entity_id < u32::MAX ==> r.is_ok(),
            r.is_err() ==> final(self).entities == old(self).entities && final(self).circles == old(self).circles,
            r matches Ok(e) ==> {
                &&& e == Entity {
                    entity_id: old(self).next_entity_id,
                    position: clamp_point(position, mass as int, old(self).config),
                    velocity: DbVector2 { x: 0, y: 0 },
                    mass,
                    entity_type: EntityType::Circle,
                }
                &&& final(self).entities@ == old(self).entities@.push(e)
                &&& final(self).circles@ == old(self).circles@.push(Circle {
                    entity_id: e.entity_id,
                    player_id,
                    direction: DbVector2 { x: 0, y: 0 },
                    speed,
                    last_split_time: now,
                })
            },
            final(self).config == old(self).config,
            final(self).foods == old(self).foods,
            final(self).controllers == old(self).controllers,
            final(self).bodies == old(self).bodies,
            final(self).inputs == old(self).inputs,
            final(self).players == old(self).players,
            final(self).phase == old(self).phase,
    {
        let id = match self.create(position, mass, EntityType::Circle) {
            Ok(id) => id,
            Err(e) => return Err(e),
        };
        let e = self.entities[self.entities.len() - 1];
        let ghost c_old = self.circles@;
        self.circles.push(
            Circle { entity_id: id, player_id, direction: DbVector2 { x: 0, y: 0 }, speed, last_split_time: now },
        );
        proof {
            assert forall|k: int| 0 <= k < c_old.len() implies c_old[k].entity_id != id by {
                assert(c_old[k].entity_id < id);
            }
        }
        Ok(e)
    }
    /// Food spawner tick. Without players nothing happens; otherwise food
    /// entities are created from `seeds`, in order, until the food count
    /// reaches `TARGET_FOOD_COUNT` or the seeds run out. Each one's mass is
    /// brought into the food range and its position inside the world.
    /// Returns how many were created.
    pub fn spawn_food_tick(&mut self, seeds: &Vec<FoodSeed>) -> (r: usize)
        requires
            old(self).wf(),
        ensures
            final(self).wf(),
            r == food_to_spawn(
                old(self).players@.len() as int,
                old(self).foods@.len() as int,
                seeds@.len() as int,
                old(self).next_entity_id as int,
            ),
            final(self).foods@.len() == old(self).foods@.len() + r,
            final(self).entities@.len() == old(self).entities@.len() + r,
            final(self).entities@.subrange(0, old(self).entities@.len() as int) == old(self).entities@,
            final(self).foods@.subrange(0, old(self).foods@.len() as int) == old(self).foods@,
            forall|t: int| 0 <= t < r ==> {
                let id = (old(self).next_entity_id + t) as u32;
                &&& #[trigger] final(self).entities@[old(self).entities@.len() + t] == Entity {
                    entity_id: id,
                    position: clamp_point(seeds@[t].position, food_mass(seeds@[t].mass) as int, old(self).config),
                    velocity: DbVector2 { x: 0, y: 0 },
                    mass: food_mass(seeds@[t].mass),
                    entity_type: EntityType::Food,
                }
                &&& final(self).foods@[old(self).foods@.len() + t] == Food { entity_id: id }
            },
            old(self).foods@.len() <= TARGET_FOOD_COUNT ==> final(self).foods@.len() <= TARGET_FOOD_COUNT,
            final(self).foods@.len() >= old(self).foods@.len(),
            final(self).config == old(self).config,
            final(self).circles == old(self).circles,
            final(self).controllers == old(self).controllers,
            final(self).bodies == old(self).bodies,
            final(self).inputs == old(self).inputs,
            final(self).players == old(self).players,
            final(self).phase == old(self).phase,
    {
        let ghost n = food_to_spawn(
            self.players@.len() as int,
            self.foods@.len() as int,
            seeds@.len() as int,
            self.next_entity_id as int,
        );
        if self.players.len() == 0 {
            return 0;
        }
        let mut i: usize = 0;
        while i < seeds.len() && (self.foods.len() as u64) < TARGET_FOOD_COUNT && self.next_entity_id < u32::MAX
            invariant
                self.wf(),
                old(self).wf(),
                i <= seeds.len(),
                i <= n,
                n == food_to_spawn(
                    old(self).players@.len() as int,
                    old(self).foods@.len() as int,
                    seeds@.len() as int,
                    old(self).next_entity_id as int,
                ),
                old(self).players@.len() > 0,
                self.foods@.len() == old(self).foods@.len() + i,
                self.entities@.len() == old(self).entities@.len() + i,
                self.next_entity_id == old(self).next_entity_id + i,
                self.entities@.subrange(0, old(self).entities@.len() as int) == old(self).entities@,
                self.foods@.subrange(0, old(self).foods@.len() as int) == old(self).foods@,
                forall|t: int| 0 <= t < i ==> {
                    let id = (old(self).next_entity_id + t) as u32;
                    &&& #[trigger] self.entities@[old(self).entities@.len() + t] == Entity {
                        entity_id: id,
                        position: clamp_point(seeds@[t].position, food_mass(seeds@[t].mass) as int, old(self).config),
                        velocity: DbVector2 { x: 0, y: 0 },
                        mass: food_mass(seeds@[t].mass),
                        entity_type: EntityType::Food,
                    }
                    &&& self.foods@[old(self).foods@.len() + t] == Food { entity_id: id }
                },
                self.config == old(self).config,
                self.circles == old(self).circles,
                self.controllers == old(self).controllers,
                self.bodies == old(self).bodies,
                self.inputs == old(self).inputs,
                self.players == old(self).players,
                self.phase == old(self).phase,
            decreases seeds.len() - i,
        {
            let seed = seeds[i];
            let mass = if seed.mass < FOOD_MASS_MIN {
                FOOD_MASS_MIN
            } else if seed.mass > FOOD_MASS_MAX {
                FOOD_MASS_MAX
            } else {
                seed.mass
            };
            let ghost e_before = self.entities@;
            let ghost f_before = self.foods@;
            let id = match self.create(seed.position, mass, EntityType::Food) {
                Ok(id) => id,
                Err(_) => {
                    return i;
                },
            };
            self.foods.push(Food { entity_id: id });
            proof {
                assert forall|k: int| 0 <= k < f_before.len() implies f_before[k].entity_id != id by {
                    assert(f_before[k].entity_id < id);
                }
                assert(self.entities@.subrange(0, old(self).entities@.len() as int)
                    =~= e_before.subrange(0, old(self).entities@.len() as int));
                assert(self.foods@.subrange(0, old(self).foods@.len() as int)
                    =~= f_before.subrange(0, old(self).foods@.len() as int));
                assert forall|t: int| 0 <= t < i + 1 implies {
                    let id = (old(self).next_entity_id + t) as u32;
                    &&& #[trigger] self.entities@[old(self).entities@.len() + t] == Entity {
                        entity_id: id,
                        position: clamp_point(seeds@[t].position, food_mass(seeds@[t].mass) as int, old(self).config),
                        velocity: DbVector2 { x: 0, y: 0 },
                        mass: food_mass(seeds@[t].mass),
                        entity_type: EntityType::Food,
                    }
                    &&& self.foods@[old(self).foods@.len() + t] == Food { entity_id: id }
                } by {
                    if t < i {
                        assert(self.entities@[old(self).entities@.len() + t] == e_before[old(self).entities@.len() + t]);
                        assert(self.foods@[old(self).foods@.len() + t] == f_before[old(self).foods@.len() + t]);
                    }
                }
            }
            i = i + 1;
        }
        i
    }
}

} // verus!
