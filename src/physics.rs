use vstd::prelude::*;
use crate::config::{GROUND_EPSILON, INPUT_DEADZONE};
use crate::entity::{BodyType, Entity, EntityType, MovementController, PhysicsBody, PlayerInput};
use crate::input::input_index;
use crate::movement::{controller_index, has_controller, lemma_controller_index};
use crate::spawn::{body_mapped, has_input};
use crate::vector::DbVector2;
use crate::world::{
    TickPhase, World, bodies_bijective, clamp_point, entity_ids_unique, has_entity, input_ids_unique, lookup,
    lemma_lookup_at,
};

verus! {

/// What the engine is asked to do to one body during input application.
#[derive(Clone, Copy, Debug, PartialEq, Eq, Structural)]
pub enum BodyCommand {
    /// Horizontal impulse `axis / 1000 * move_speed / 1000 * body mass`.
    Move { entity_id: u32, handle: u64, axis: i64, move_speed: i64 },
    /// Vertical impulse `jump_force / 1000 * body mass`.
    Jump { entity_id: u32, handle: u64, jump_force: i64 },
}

/// State of one body read back from the engine after a step.
#[derive(Clone, Copy, Debug, PartialEq, Eq, Structural)]
pub struct BodySample {
    pub handle: u64,
    pub position: DbVector2,
    pub velocity: DbVector2,
}

/// Ground detection by velocity: grounded iff the vertical speed is small.
pub open spec fn grounded(vy: int) -> bool {
    -GROUND_EPSILON <= vy <= GROUND_EPSILON
}

/// A jump impulse fires on a grounded body.
pub open spec fn jump_fires(b: PhysicsBody) -> bool {
    b.on_ground
}

/// The body after its jump fired: airborne until ground detection runs again.
pub open spec fn after_jump_body(b: PhysicsBody) -> PhysicsBody {
    PhysicsBody { on_ground: false, ..b }
}

/// The controller after its jump fired: jumping is unavailable until regrounded.
pub open spec fn after_jump(c: MovementController) -> MovementController {
    MovementController { can_jump: false, ..c }
}

/// A jump fires at most once before the body is grounded again, and the
/// controller it fired for may not ask again until then.
pub proof fn lemma_jump_single_fire(c: MovementController, b: PhysicsBody)
    requires
        jump_fires(b),
    ensures
        !jump_fires(after_jump_body(b)),
        !after_jump(c).can_jump,
{
}

/// Index of the body of entity `id` (meaningful where it exists).
pub open spec fn body_index(s: Seq<PhysicsBody>, id: u32) -> int {
    choose|k: int| 0 <= k < s.len() && #[trigger] s[k].entity_id == id
}

pub open spec fn body_of(s: Seq<PhysicsBody>, id: u32) -> PhysicsBody {
    s[body_index(s, id)]
}

pub proof fn lemma_body_index(s: Seq<PhysicsBody>, k: int)
    requires
        bodies_bijective(s),
        0 <= k < s.len(),
    ensures
        body_mapped(s, s[k].entity_id),
        body_index(s, s[k].entity_id) == k,
{
    assert(body_mapped(s, s[k].entity_id));
    let j = body_index(s, s[k].entity_id);
    assert(0 <= j < s.len() && s[j].entity_id == s[k].entity_id);
}

pub open spec fn opt_seq(o: Option<BodyCommand>) -> Seq<BodyCommand> {
    match o {
        Some(c) => seq![c],
        None => Seq::empty(),
    }
}

/// The movement impulse for controller `c` under input `i`: outside the dead
/// zone, and only for a mapped dynamic body.
pub open spec fn move_command(bodies: Seq<PhysicsBody>, c: MovementController, i: PlayerInput) -> Option<BodyCommand> {
    if (i.horizontal_axis > INPUT_DEADZONE || i.horizontal_axis < -INPUT_DEADZONE) && body_mapped(bodies, c.entity_id)
        && body_of(bodies, c.entity_id).body_type == BodyType::Dynamic {
        Some(
            BodyCommand::Move {
                entity_id: c.entity_id,
                handle: body_of(bodies, c.entity_id).handle,
                axis: i.horizontal_axis,
                move_speed: c.move_speed,
            },
        )
    } else {
        None
    }
}

/// The jump impulse for controller `c` under input `i`.
pub open spec fn jump_command(bodies: Seq<PhysicsBody>, c: MovementController, i: PlayerInput) -> Option<BodyCommand> {
    if i.jump_pressed && c.can_jump && body_mapped(bodies, c.entity_id) && jump_fires(body_of(bodies, c.entity_id)) {
        Some(
            BodyCommand::Jump {
                entity_id: c.entity_id,
                handle: body_of(bodies, c.entity_id).handle,
                jump_force: c.jump_force,
            },
        )
    } else {
        None
    }
}

/// Commands for one controller: its move, then its jump.
pub open spec fn commands_for(
    bodies: Seq<PhysicsBody>,
    inputs: Seq<PlayerInput>,
    c: MovementController,
) -> Seq<BodyCommand> {
    if has_input(inputs, c.player_id) {
        let i = inputs[input_index(inputs, c.player_id)];
        opt_seq(move_command(bodies, c, i)) + opt_seq(jump_command(bodies, c, i))
    } else {
        Seq::empty()
    }
}

/// Whether the controller's jump fires during input application.
pub open spec fn jumps(bodies: Seq<PhysicsBody>, inputs: Seq<PlayerInput>, c: MovementController) -> bool {
    has_input(inputs, c.player_id) && jump_command(bodies, c, inputs[input_index(inputs, c.player_id)]).is_some()
}

/// The controller after input application.
pub open spec fn controller_after_inputs(
    bodies: Seq<PhysicsBody>,
    inputs: Seq<PlayerInput>,
    c: MovementController,
) -> MovementController {
    if jumps(bodies, inputs, c) {
        after_jump(c)
    } else {
        c
    }
}

/// A body after input application: airborne where its controller jumped.
pub open spec fn body_after_inputs(
    bodies: Seq<PhysicsBody>,
    inputs: Seq<PlayerInput>,
    ctrls: Seq<MovementController>,
    b: PhysicsBody,
) -> PhysicsBody {
    if has_controller(ctrls, b.entity_id) && jumps(bodies, inputs, ctrls[controller_index(ctrls, b.entity_id)]) {
        after_jump_body(b)
    } else {
        b
    }
}

/// Commands for all controllers, in order.
pub open spec fn plan_inputs(
    bodies: Seq<PhysicsBody>,
    inputs: Seq<PlayerInput>,
    ctrls: Seq<MovementController>,
) -> Seq<BodyCommand>
    decreases ctrls.len(),
{
    if ctrls.len() == 0 {
        Seq::empty()
    } else {
        plan_inputs(bodies, inputs, ctrls.drop_last()) + commands_for(bodies, inputs, ctrls.last())
    }
}

/// First sample of the given handle.
pub open spec fn sample_for(s: Seq<BodySample>, handle: u64) -> Option<BodySample>
    decreases s.len(),
{
    if s.len() == 0 {
        None
    } else if s[0].handle == handle {
        Some(s[0])
    } else {
        sample_for(s.drop_first(), handle)
    }
}

/// An entity after syncing: a player entity with a body and a sample takes
/// the sampled velocity and the sampled position brought inside the world.
pub open spec fn synced(e: Entity, w: &World, samples: Seq<BodySample>) -> Entity {
    if e.entity_type == EntityType::Player && body_mapped(w.bodies@, e.entity_id) && sample_for(
        samples,
        body_of(w.bodies@, e.entity_id).handle,
    ).is_some() {
        let s = sample_for(samples, body_of(w.bodies@, e.entity_id).handle).unwrap();
        Entity { position: clamp_point(s.position, e.mass as int, w.config), velocity: s.velocity, ..e }
    } else {
        e
    }
}

/// A body after ground detection, from its entity's synced velocity.
pub open spec fn grounded_body(b: PhysicsBody, entities: Seq<Entity>) -> PhysicsBody {
    PhysicsBody {
        on_ground: has_entity(entities, b.entity_id) && grounded(lookup(entities, b.entity_id).velocity.y as int),
        ..b
    }
}

/// A controller after ground detection: a grounded body makes jumping available.
pub open spec fn regrounded(c: MovementController, bodies: Seq<PhysicsBody>) -> MovementController {
    if body_mapped(bodies, c.entity_id) && body_of(bodies, c.entity_id).on_ground {
        MovementController { can_jump: true, ..c }
    } else {
        c
    }
}

/// Ground detection by velocity.
pub fn is_grounded(vy: i64) -> (r: bool)
    ensures
        r == grounded(vy as int),
{
    -GROUND_EPSILON <= vy && vy <= GROUND_EPSILON
}

fn find_sample(samples: &Vec<BodySample>, handle: u64) -> (r: Option<BodySample>)
    ensures
        r == sample_for(samples@, handle),
{
    let mut k: usize = 0;
    assert(samples@.subrange(0, samples@.len() as int) =~= samples@);
    while k < samples.len()
        invariant
            k <= samples.len(),
            sample_for(samples@, handle) == sample_for(samples@.subrange(k as int, samples@.len() as int), handle),
        decreases samples.len() - k,
    {
        let ghost rest = samples@.subrange(k as int, samples@.len() as int);
        assert(rest.drop_first() =~= samples@.subrange(k + 1, samples@.len() as int));
        if samples[k].handle == handle {
            return Some(samples[k]);
        }
        k = k + 1;
    }
    None
}

impl World {
    /// Movement impulse for an entity: none where the entity has no body or
    /// its body is not dynamic.
    pub fn apply_movement_force(&self, entity_id: u32, axis: i64, move_speed: i64) -> (r: Option<BodyCommand>)
        requires
            self.wf(),
        ensures
            r == (if body_mapped(self.bodies@, entity_id) && body_of(self.bodies@, entity_id).body_type
                == BodyType::Dynamic {
                Some(
                    BodyCommand::Move {
                        entity_id,
                        handle: body_of(self.bodies@, entity_id).handle,
                        axis,
                        move_speed,
                    },
                )
            } else {
                None
            }),
    {
        match self.find_body(entity_id) {
            Some(b) => {
                proof {
                    lemma_body_index(self.bodies@, b as int);
                }
                let body = self.bodies[b];
                match body.body_type {
                    BodyType::Dynamic => Some(
                        BodyCommand::Move { entity_id, handle: body.handle, axis, move_speed },
                    ),
                    _ => None,
                }
            },
            None => None,
        }
    }

    /// Jump impulse for an entity: it fires only where the entity has a body
    /// and that body is grounded; the body is then airborne until ground
    /// detection runs again. Returns whether it fired, as the command.
    pub fn apply_jump_impulse(&mut self, entity_id: u32, jump_force: i64) -> (r: Option<BodyCommand>)
        requires
            old(self).wf(),
        ensures
            final(self).wf(),
            r.is_some() == (body_mapped(old(self).bodies@, entity_id) && jump_fires(body_of(old(self).bodies@, entity_id))),
            r.is_none() ==> final(self).bodies == old(self).bodies,
            r.is_some() ==> r == Some(
                BodyCommand::Jump { entity_id, handle: body_of(old(self).bodies@, entity_id).handle, jump_force },
            ) && final(self).bodies@ == old(self).bodies@.update(
                body_index(old(self).bodies@, entity_id),
                after_jump_body(body_of(old(self).bodies@, entity_id)),
            ),
            final(self).config == old(self).config,
            final(self).next_entity_id == old(self).next_entity_id,
            final(self).entities == old(self).entities,
            final(self).foods == old(self).foods,
            final(self).circles == old(self).circles,
            final(self).controllers == old(self).controllers,
            final(self).inputs == old(self).inputs,
            final(self).players == old(self).players,
            final(self).phase == old(self).phase,
    {
        let b = match self.find_body(entity_id) {
            Some(b) => b,
            None => {
                return None;
            },
        };
        proof {
            lemma_body_index(self.bodies@, b as int);
        }
        let body = self.bodies[b];
        if body.on_ground {
            let ghost before = self.bodies@;
            self.bodies.set(b, PhysicsBody { on_ground: false, ..body });
            proof {
                assert forall|x: int, y: int| 0 <= x < y < self.bodies@.len() implies self.bodies@[x].entity_id
                    != self.bodies@[y].entity_id && self.bodies@[x].handle != self.bodies@[y].handle by {
                    assert(self.bodies@[x].entity_id == before[x].entity_id && self.bodies@[x].handle == before[x].handle);
                    assert(self.bodies@[y].entity_id == before[y].entity_id && self.bodies@[y].handle == before[y].handle);
                }
            }
            Some(BodyCommand::Jump { entity_id, handle: body.handle, jump_force })
        } else {
            None
        }
    }

    /// First sub-step of a physics tick: turns every controller's stored
    /// input into engine commands (a move outside the dead zone, a jump where
    /// one is asked for, allowed and fires), in controller order. A fired
    /// jump makes the controller's jump unavailable.
    pub fn apply_player_inputs(&mut self) -> (r: Vec<BodyCommand>)
        requires
            old(self).wf(),
            old(self).phase == TickPhase::Idle,
        ensures
            final(self).wf(),
            final(self).phase == TickPhase::InputsApplied,
            r@ == plan_inputs(old(self).bodies@, old(self).inputs@, old(self).controllers@),
            final(self).controllers@.len() == old(self).controllers@.len(),
            forall|k: int| 0 <= k < old(self).controllers@.len() ==> #[trigger] final(self).controllers@[k]
                == controller_after_inputs(old(self).bodies@, old(self).inputs@, old(self).controllers@[k]),
            final(self).bodies@.len() == old(self).bodies@.len(),
            forall|k: int| 0 <= k < old(self).bodies@.len() ==> #[trigger] final(self).bodies@[k]
                == body_after_inputs(old(self).bodies@, old(self).inputs@, old(self).controllers@, old(self).bodies@[k]),
            final(self).config == old(self).config,
            final(self).next_entity_id == old(self).next_entity_id,
            final(self).entities == old(self).entities,
            final(self).foods == old(self).foods,
            final(self).circles == old(self).circles,
            final(self).inputs == old(self).inputs,
            final(self).players == old(self).players,
    {
        let ghost bodies = self.bodies@;
        let ghost inputs = self.inputs@;
        let ghost ctrls = self.controllers@;
        let mut cmds: Vec<BodyCommand> = Vec::new();
        let mut k: usize = 0;
        assert(ctrls.subrange(0, 0) =~= Seq::<MovementController>::empty());
        while k < self.controllers.len()
            invariant
                self.wf(),
                k <= self.controllers.len(),
                self.controllers@.len() == ctrls.len(),
                self.bodies@.len() == bodies.len(),
                bodies == old(self).bodies@,
                inputs == self.inputs@,
                ctrls == old(self).controllers@,
                bodies_bijective(bodies),
                crate::world::controller_ids_unique(ctrls),
                forall|t: int| 0 <= t < ctrls.len() ==> #[trigger] self.controllers@[t] == if t < k {
                    controller_after_inputs(bodies, inputs, ctrls[t])
                } else {
                    ctrls[t]
                },
                forall|t: int| 0 <= t < bodies.len() ==> #[trigger] self.bodies@[t] == if has_controller(
                    ctrls,
                    bodies[t].entity_id,
                ) && controller_index(ctrls, bodies[t].entity_id) < k && jumps(
                    bodies,
                    inputs,
                    ctrls[controller_index(ctrls, bodies[t].entity_id)],
                ) {
                    after_jump_body(bodies[t])
                } else {
                    bodies[t]
                },
                cmds@ == plan_inputs(bodies, inputs, ctrls.subrange(0, k as int)),
                self.config == old(self).config,
                self.next_entity_id == old(self).next_entity_id,
                self.entities == old(self).entities,
                self.foods == old(self).foods,
                self.circles == old(self).circles,
                self.inputs == old(self).inputs,
                self.players == old(self).players,
                self.phase == old(self).phase,
            decreases self.controllers.len() - k,
        {
            let c = self.controllers[k];
            assert(ctrls.subrange(0, k + 1).drop_last() =~= ctrls.subrange(0, k as int));
            assert(ctrls.subrange(0, k + 1).last() == c);
            let ghost before = cmds@;
            let ghost c_before = self.controllers@;
            let ghost b_before = self.bodies@;
            proof {
                lemma_controller_index(ctrls, k as int);
                // the current body of this controller is still the one at the start
                if body_mapped(bodies, c.entity_id) {
                    let j = body_index(bodies, c.entity_id);
                    lemma_body_index(bodies, j);
                    assert(self.bodies@[j] == bodies[j]);
                    lemma_body_index(self.bodies@, j);
                } else {
                    assert forall|t: int| 0 <= t < self.bodies@.len() implies self.bodies@[t].entity_id
                        != c.entity_id by {
                        assert(self.bodies@[t].entity_id == bodies[t].entity_id);
                    }
                }
            }
            match self.find_input(c.player_id) {
                Some(ii) => {
                    proof {
                        crate::input::lemma_input_index(self.inputs@, ii as int);
                    }
                    let input = self.inputs[ii];
                    if input.horizontal_axis > INPUT_DEADZONE || input.horizontal_axis < -INPUT_DEADZONE {
                        match self.apply_movement_force(c.entity_id, input.horizontal_axis, c.move_speed) {
                            Some(cmd) => cmds.push(cmd),
                            None => {},
                        }
                    }
                    assert(cmds@ == before + opt_seq(move_command(bodies, c, input)));
                    let ghost mid = cmds@;
                    if input.jump_pressed && c.can_jump {
                        match self.apply_jump_impulse(c.entity_id, c.jump_force) {
                            Some(cmd) => {
                                cmds.push(cmd);
                                let ghost c_mid = self.controllers@;
                                self.controllers.set(k, MovementController { can_jump: false, ..c });
                                proof {
                                    assert forall|x: int, y: int| 0 <= x < y < self.controllers@.len() implies
                                        self.controllers@[x].entity_id != self.controllers@[y].entity_id by {
                                        assert(self.controllers@[x].entity_id == c_mid[x].entity_id);
                                        assert(self.controllers@[y].entity_id == c_mid[y].entity_id);
                                    }
                                }
                            },
                            None => {},
                        }
                    }
                    proof {
                        assert(cmds@ =~= mid + opt_seq(jump_command(bodies, c, input)));
                        assert(cmds@ =~= before + commands_for(bodies, inputs, c));
                        assert forall|t: int| 0 <= t < ctrls.len() implies #[trigger] self.controllers@[t] == if t
                            < k + 1 {
                            controller_after_inputs(bodies, inputs, ctrls[t])
                        } else {
                            ctrls[t]
                        } by {
                            assert(c_before[t] == (if t < k {
                                controller_after_inputs(bodies, inputs, ctrls[t])
                            } else {
                                ctrls[t]
                            }));
                        }
                        assert forall|t: int| 0 <= t < bodies.len() implies #[trigger] self.bodies@[t] == if has_controller(
                            ctrls,
                            bodies[t].entity_id,
                        ) && controller_index(ctrls, bodies[t].entity_id) < k + 1 && jumps(
                            bodies,
                            inputs,
                            ctrls[controller_index(ctrls, bodies[t].entity_id)],
                        ) {
                            after_jump_body(bodies[t])
                        } else {
                            bodies[t]
                        } by {
                            assert(b_before[t] == (if has_controller(ctrls, bodies[t].entity_id) && controller_index(
                                ctrls,
                                bodies[t].entity_id,
                            ) < k && jumps(bodies, inputs, ctrls[controller_index(ctrls, bodies[t].entity_id)]) {
                                after_jump_body(bodies[t])
                            } else {
                                bodies[t]
                            }));
                            if bodies[t].entity_id == c.entity_id {
                                lemma_body_index(bodies, t);
                            } else if has_controller(ctrls, bodies[t].entity_id) {
                                let ci = controller_index(ctrls, bodies[t].entity_id);
                                assert(ctrls[ci].entity_id == bodies[t].entity_id);
                                assert(ci != k);
                            }
                        }
                    }
                },
                None => {
                    proof {
                        assert(!has_input(inputs, c.player_id));
                        assert(cmds@ =~= before + commands_for(bodies, inputs, c));
                        assert forall|t: int| 0 <= t < bodies.len() implies #[trigger] self.bodies@[t] == if has_controller(
                            ctrls,
                            bodies[t].entity_id,
                        ) && controller_index(ctrls, bodies[t].entity_id) < k + 1 && jumps(
                            bodies,
                            inputs,
                            ctrls[controller_index(ctrls, bodies[t].entity_id)],
                        ) {
                            after_jump_body(bodies[t])
                        } else {
                            bodies[t]
                        } by {
                            if has_controller(ctrls, bodies[t].entity_id) {
                                let ci = controller_index(ctrls, bodies[t].entity_id);
                                assert(ctrls[ci].entity_id == bodies[t].entity_id);
                                if ci == k {
                                    assert(!jumps(bodies, inputs, c));
                                }
                            }
                        }
                    }
                },
            }
            k = k + 1;
        }
        assert(ctrls.subrange(0, k as int) =~= ctrls);
        self.phase = TickPhase::InputsApplied;
        cmds
    }

    /// Records that the engine advanced by one fixed timestep.
    pub fn record_step(&mut self)
        requires
            old(self).wf(),
            old(self).phase == TickPhase::InputsApplied,
        ensures
            final(self).wf(),
            final(self).phase == TickPhase::Stepped,
            final(self).config == old(self).config,
            final(self).next_entity_id == old(self).next_entity_id,
            final(self).entities == old(self).entities,
            final(self).foods == old(self).foods,
            final(self).circles == old(self).circles,
            final(self).controllers == old(self).controllers,
            final(self).bodies == old(self).bodies,
            final(self).inputs == old(self).inputs,
            final(self).players == old(self).players,
    {
        self.phase = TickPhase::Stepped;
    }

    /// Third sub-step of a physics tick: every player entity with a body
    /// takes the state sampled from the engine, its position brought inside
    /// the world.
    pub fn sync_physics(&mut self, samples: &Vec<BodySample>)
        requires
            old(self).wf(),
            old(self).phase == TickPhase::Stepped,
        ensures
            final(self).wf(),
            final(self).phase == TickPhase::Synced,
            final(self).entities@.len() == old(self).entities@.len(),
            forall|k: int| 0 <= k < old(self).entities@.len() ==> #[trigger] final(self).entities@[k]
                == synced(old(self).entities@[k], old(self), samples@),
            final(self).config == old(self).config,
            final(self).next_entity_id == old(self).next_entity_id,
            final(self).foods == old(self).foods,
            final(self).circles == old(self).circles,
            final(self).controllers == old(self).controllers,
            final(self).bodies == old(self).bodies,
            final(self).inputs == old(self).inputs,
            final(self).players == old(self).players,
    {
        let ghost ents = self.entities@;
        let mut k: usize = 0;
        while k < self.entities.len()
            invariant
                self.wf(),
                k <= self.entities.len(),
                self.entities@.len() == ents.len(),
                ents == old(self).entities@,
                forall|t: int| 0 <= t < ents.len() ==> #[trigger] self.entities@[t] == if t < k {
                    synced(ents[t], old(self), samples@)
                } else {
                    ents[t]
                },
                self.config == old(self).config,
                self.next_entity_id == old(self).next_entity_id,
                self.foods == old(self).foods,
                self.circles == old(self).circles,
                self.controllers == old(self).controllers,
                self.bodies == old(self).bodies,
                self.inputs == old(self).inputs,
                self.players == old(self).players,
                self.phase == old(self).phase,
            decreases self.entities.len() - k,
        {
            let e = self.entities[k];
            if e.entity_type == EntityType::Player {
                match self.find_body(e.entity_id) {
                    Some(b) => {
                        proof {
                            lemma_body_index(self.bodies@, b as int);
                        }
                        match find_sample(samples, self.bodies[b].handle) {
                            Some(smp) => {
                                let x = crate::game_math::GameMath::clamp_to_world(smp.position.x, e.mass, &self.config);
                                let y = crate::game_math::GameMath::clamp_to_world(smp.position.y, e.mass, &self.config);
                                let ne = Entity { position: DbVector2 { x, y }, velocity: smp.velocity, ..e };
                                let ghost before = self.entities@;
                                self.entities.set(k, ne);
                                proof {
                                    assert forall|a: int, c: int| 0 <= a < c < self.entities@.len() implies
                                        self.entities@[a].entity_id != self.entities@[c].entity_id by {
                                        assert(self.entities@[a].entity_id == before[a].entity_id);
                                        assert(self.entities@[c].entity_id == before[c].entity_id);
                                    }
                                }
                            },
                            None => {},
                        }
                    },
                    None => {},
                }
            }
            k = k + 1;
        }
        self.phase = TickPhase::Synced;
    }

    /// Last sub-step of a physics tick: each body is judged grounded from its
    /// entity's synced vertical velocity, and each controller whose body is
    /// grounded may jump again.
    pub fn update_ground_detection(&mut self)
        requires
            old(self).wf(),
            old(self).phase == TickPhase::Synced,
        ensures
            final(self).wf(),
            final(self).phase == TickPhase::Idle,
            final(self).bodies@.len() == old(self).bodies@.len(),
            forall|k: int| 0 <= k < old(self).bodies@.len() ==> #[trigger] final(self).bodies@[k]
                == grounded_body(old(self).bodies@[k], old(self).entities@),
            final(self).controllers@.len() == old(self).controllers@.len(),
            forall|k: int| 0 <= k < old(self).controllers@.len() ==> #[trigger] final(self).controllers@[k]
                == regrounded(old(self).controllers@[k], final(self).bodies@),
            final(self).config == old(self).config,
            final(self).next_entity_id == old(self).next_entity_id,
            final(self).entities == old(self).entities,
            final(self).foods == old(self).foods,
            final(self).circles == old(self).circles,
            final(self).inputs == old(self).inputs,
            final(self).players == old(self).players,
    {
        let ghost bods = self.bodies@;
        let mut k: usize = 0;
        while k < self.bodies.len()
            invariant
                self.wf(),
                k <= self.bodies.len(),
                self.bodies@.len() == bods.len(),
                bods == old(self).bodies@,
                forall|t: int| 0 <= t < bods.len() ==> #[trigger] self.bodies@[t] == if t < k {
                    grounded_body(bods[t], old(self).entities@)
                } else {
                    bods[t]
                },
                self.config == old(self).config,
                self.next_entity_id == old(self).next_entity_id,
                self.entities == old(self).entities,
                self.foods == old(self).foods,
                self.circles == old(self).circles,
                self.controllers == old(self).controllers,
                self.inputs == old(self).inputs,
                self.players == old(self).players,
                self.phase == old(self).phase,
            decreases self.bodies.len() - k,
        {
            let b = self.bodies[k];
            let on_ground = match self.find_entity(b.entity_id) {
                Some(ei) => {
                    proof {
                        lemma_lookup_at(self.entities@, ei as int);
                    }
                    is_grounded(self.entities[ei].velocity.y)
                },
                None => false,
            };
            let ghost before = self.bodies@;
            self.bodies.set(k, PhysicsBody { on_ground, ..b });
            proof {
                assert forall|a: int, c: int| 0 <= a < c < self.bodies@.len() implies
                    self.bodies@[a].entity_id != self.bodies@[c].entity_id
                        && self.bodies@[a].handle != self.bodies@[c].handle by {
                    assert(self.bodies@[a].entity_id == before[a].entity_id);
                    assert(self.bodies@[c].entity_id == before[c].entity_id);
                }
            }
            k = k + 1;
        }
        let ghost ctrls = self.controllers@;
        let ghost nb = self.bodies@;
        let mut k: usize = 0;
        while k < self.controllers.len()
            invariant
                self.wf(),
                k <= self.controllers.len(),
                self.controllers@.len() == ctrls.len(),
                ctrls == old(self).controllers@,
                nb == self.bodies@,
                nb.len() == old(self).bodies@.len(),
                forall|t: int| 0 <= t < old(self).bodies@.len() ==> #[trigger] nb[t]
                    == grounded_body(old(self).bodies@[t], old(self).entities@),
                forall|t: int| 0 <= t < ctrls.len() ==> #[trigger] self.controllers@[t] == if t < k {
                    regrounded(ctrls[t], nb)
                } else {
                    ctrls[t]
                },
                self.config == old(self).config,
                self.next_entity_id == old(self).next_entity_id,
                self.entities == old(self).entities,
                self.foods == old(self).foods,
                self.circles == old(self).circles,
                self.inputs == old(self).inputs,
                self.players == old(self).players,
                self.phase == old(self).phase,
            decreases self.controllers.len() - k,
        {
            let c = self.controllers[k];
            match self.find_body(c.entity_id) {
                Some(b) => {
                    proof {
                        lemma_body_index(self.bodies@, b as int);
                    }
                    if self.bodies[b].on_ground && !c.can_jump {
                        let ghost before = self.controllers@;
                        self.controllers.set(k, MovementController { can_jump: true, ..c });
                        proof {
                            assert forall|a: int, d: int| 0 <= a < d < self.controllers@.len() implies
                                self.controllers@[a].entity_id != self.controllers@[d].entity_id by {
                                assert(self.controllers@[a].entity_id == before[a].entity_id);
                                assert(self.controllers@[d].entity_id == before[d].entity_id);
                            }
                        }
                    }
                },
                None => {},
            }
            k = k + 1;
        }
        self.phase = TickPhase::Idle;
    }
}

} // verus!
