use vstd::prelude::*;
use crate::collision::{
    Absorption, CollisionDetection, eats, from_snapshot, gain, lemma_gain_prefix, lemma_gain_push, lemma_resolve_batch, resolve,
    well_formed_batch,
};
use crate::config::Config;
use crate::entity::{Circle, Entity, MovementController, in_bounds};
use crate::game_math::{GameMath, clamp_coord};
use crate::vector::DbVector2;
use crate::world::{
    World, circle_ids_unique, controller_ids_unique, entity_ids_unique, has_entity, lemma_lookup_at,
    lemma_prefix_set_step, lemma_records_dropped_trans, lookup, prefix_set, records_dropped,
};

verus! {

/// The preys of a batch, in order.
pub open spec fn prey_ids(evs: Seq<Absorption>) -> Seq<u32> {
    evs.map_values(|e: Absorption| e.prey)
}

/// `x` takes part in none of the absorptions of `evs`.
pub open spec fn uninvolved(evs: Seq<Absorption>, x: u32) -> bool {
    forall|a: int| 0 <= a < evs.len() ==> (#[trigger] evs[a]).predator != x && evs[a].prey != x
}

/// `n / d` rounded toward zero.
pub open spec fn div_toward_zero(n: int, d: int) -> int {
    if n >= 0 {
        n / d
    } else {
        -((-n) / d)
    }
}

/// `v` saturated into the range of `i64`.
pub open spec fn saturate(v: int) -> int {
    if v > i64::MAX {
        i64::MAX as int
    } else if v < i64::MIN {
        i64::MIN as int
    } else {
        v
    }
}

/// One coordinate after a movement tick: the position advances by the
/// direction (thousandths) times the speed, and is brought inside the world.
pub open spec fn moved_coord(p: int, d: int, speed: int, mass: int, config: Config) -> int {
    clamp_coord(saturate(p + div_toward_zero(d * speed, 1000)), mass, config.extent())
}

pub open spec fn has_circle(s: Seq<Circle>, id: u32) -> bool {
    exists|k: int| 0 <= k < s.len() && #[trigger] s[k].entity_id == id
}

pub open spec fn circle_index(s: Seq<Circle>, id: u32) -> int {
    choose|k: int| 0 <= k < s.len() && #[trigger] s[k].entity_id == id
}

pub open spec fn has_controller(s: Seq<MovementController>, id: u32) -> bool {
    exists|k: int| 0 <= k < s.len() && #[trigger] s[k].entity_id == id
}

pub open spec fn controller_index(s: Seq<MovementController>, id: u32) -> int {
    choose|k: int| 0 <= k < s.len() && #[trigger] s[k].entity_id == id
}

/// An entity after the movement step: one with a circle attachment moves
/// along that circle's direction.
pub open spec fn after_move(e: Entity, circles: Seq<Circle>, config: Config) -> Entity {
    if has_circle(circles, e.entity_id) {
        let c = circles[circle_index(circles, e.entity_id)];
        Entity {
            position: DbVector2 {
                x: moved_coord(e.position.x as int, c.direction.x as int, c.speed as int, e.mass as int, config) as i64,
                y: moved_coord(e.position.y as int, c.direction.y as int, c.speed as int, e.mass as int, config) as i64,
            },
            ..e
        }
    } else {
        e
    }
}

/// The player owning an entity, through its circle attachment or else its
/// movement controller.
pub open spec fn owner_of(id: u32, circles: Seq<Circle>, ctrls: Seq<MovementController>) -> Option<u32> {
    if has_circle(circles, id) {
        Some(circles[circle_index(circles, id)].player_id)
    } else if has_controller(ctrls, id) {
        Some(ctrls[controller_index(ctrls, id)].player_id)
    } else {
        None
    }
}

pub proof fn lemma_circle_index(s: Seq<Circle>, k: int)
    requires
        circle_ids_unique(s),
        0 <= k < s.len(),
    ensures
        has_circle(s, s[k].entity_id),
        circle_index(s, s[k].entity_id) == k,
{
    assert(has_circle(s, s[k].entity_id));
    let j = circle_index(s, s[k].entity_id);
    assert(0 <= j < s.len() && s[j].entity_id == s[k].entity_id);
}

pub proof fn lemma_controller_index(s: Seq<MovementController>, k: int)
    requires
        controller_ids_unique(s),
        0 <= k < s.len(),
    ensures
        has_controller(s, s[k].entity_id),
        controller_index(s, s[k].entity_id) == k,
{
    assert(has_controller(s, s[k].entity_id));
    let j = controller_index(s, s[k].entity_id);
    assert(0 <= j < s.len() && s[j].entity_id == s[k].entity_id);
}

/// One coordinate after a movement tick.
pub fn move_coord(p: i64, d: i64, speed: i64, mass: u32, config: &Config) -> (r: i64)
    requires
        config.wf(),
    ensures
        r == moved_coord(p as int, d as int, speed as int, mass as int, *config),
        0 <= r <= config.extent(),
{
    let dd = d as i128;
    let ss = speed as i128;
    assert(dd * ss <= 0x4000_0000_0000_0000_0000_0000_0000_0000 && dd * ss >= -0x4000_0000_0000_0000_0000_0000_0000_0000)
        by (nonlinear_arith)
        requires
            -0x8000_0000_0000_0000 <= dd <= 0x7FFF_FFFF_FFFF_FFFF,
            -0x8000_0000_0000_0000 <= ss <= 0x7FFF_FFFF_FFFF_FFFF,
    ;
    let prod = dd * ss;
    let delta: i128 = if prod >= 0 {
        ((prod as u128) / 1000) as i128
    } else {
        -(((-prod) as u128 / 1000) as i128)
    };
    let target = p as i128 + delta;
    let sat: i64 = if target > i64::MAX as i128 {
        i64::MAX
    } else if target < i64::MIN as i128 {
        i64::MIN
    } else {
        target as i64
    };
    GameMath::clamp_to_world(sat, mass, config)
}

impl World {
    /// Owner of every entity, in store order.
    pub fn owners(&self) -> (r: Vec<Option<u32>>)
        requires
            self.wf(),
        ensures
            r@.len() == self.entities@.len(),
            forall|k: int| 0 <= k < self.entities@.len() ==> #[trigger] r@[k] == owner_of(
                self.entities@[k].entity_id,
                self.circles@,
                self.controllers@,
            ),
    {
        let mut r: Vec<Option<u32>> = Vec::new();
        let mut k: usize = 0;
        while k < self.entities.len()
            invariant
                self.wf(),
                k <= self.entities.len(),
                r@.len() == k,
                forall|t: int| 0 <= t < k ==> #[trigger] r@[t] == owner_of(
                    self.entities@[t].entity_id,
                    self.circles@,
                    self.controllers@,
                ),
            decreases self.entities.len() - k,
        {
            let id = self.entities[k].entity_id;
            let o = match self.find_circle(id) {
                Some(ci) => {
                    proof {
                        lemma_circle_index(self.circles@, ci as int);
                    }
                    Some(self.circles[ci].player_id)
                },
                None => match self.find_controller(id) {
                    Some(mi) => {
                        proof {
                            lemma_controller_index(self.controllers@, mi as int);
                        }
                        Some(self.controllers[mi].player_id)
                    },
                    None => None,
                },
            };
            r.push(o);
            k = k + 1;
        }
        r
    }

    /// Moves every circle-mode entity one step along its direction, keeping
    /// it inside the world.
    pub fn move_circles(&mut self)
        requires
            old(self).wf(),
        ensures
            final(self).wf(),
            final(self).entities@.len() == old(self).entities@.len(),
            forall|k: int| 0 <= k < old(self).entities@.len() ==> #[trigger] final(self).entities@[k]
                == after_move(old(self).entities@[k], old(self).circles@, old(self).config),
            final(self).config == old(self).config,
            final(self).next_entity_id == old(self).next_entity_id,
            final(self).foods == old(self).foods,
            final(self).circles == old(self).circles,
            final(self).controllers == old(self).controllers,
            final(self).bodies == old(self).bodies,
            final(self).inputs == old(self).inputs,
            final(self).players == old(self).players,
            final(self).phase == old(self).phase,
    {
        let ghost ents = self.entities@;
        let mut k: usize = 0;
        while k < self.entities.len()
            invariant
                self.wf(),
                k <= self.entities.len(),
                self.entities@.len() == ents.len(),
                ents == old(self).entities@,
                forall|t: int| 0 <= t < ents.len() ==> #[trigger] self.entities@[t] == if t < k {
                    after_move(ents[t], old(self).circles@, old(self).config)
                } else {
                    ents[t]
                },
                self.config == old(self).config,
                self.next_entity_id == old(self).next_entity_id,
                self.foods == old(self).foods,
                self.circles == old(self).circles,
                self.controllers == old(self).controllers,
                self.bodies == old(self).bodies,
                self.inputs == old(self).inputs,
                self.players == old(self).players,
                self.phase == old(self).phase,
            decreases self.entities.len() - k,
        {
            let e = self.entities[k];
            match self.find_circle(e.entity_id) {
                Some(ci) => {
                    proof {
                        lemma_circle_index(self.circles@, ci as int);
                    }
                    let c = self.circles[ci];
                    let x = move_coord(e.position.x, c.direction.x, c.speed, e.mass, &self.config);
                    let y = move_coord(e.position.y, c.direction.y, c.speed, e.mass, &self.config);
                    let ghost before = self.entities@;
                    self.entities.set(k, Entity { position: DbVector2 { x, y }, ..e });
                    proof {
                        assert forall|a: int, b: int| 0 <= a < b < self.entities@.len() implies
                            self.entities@[a].entity_id != self.entities@[b].entity_id by {
                            assert(self.entities@[a].entity_id == before[a].entity_id);
                            assert(self.entities@[b].entity_id == before[b].entity_id);
                        }
                    }
                },
                None => {},
            }
            k = k + 1;
        }
    }

    /// Circle-mode movement tick: every circle moves, then the collision
    /// resolver scans the moved snapshot and its absorptions are applied as
    /// one batch. Returns the batch.
    #[verifier::rlimit(60)]
    pub fn movement_tick(&mut self) -> (r: Vec<Absorption>)
        requires
            old(self).wf(),
        ensures
            final(self).wf(),
            ({
                let moved = Seq::new(
                    old(self).entities@.len(),
                    |k: int| after_move(old(self).entities@[k], old(self).circles@, old(self).config),
                );
                let owners = Seq::new(
                    old(self).entities@.len(),
                    |k: int| owner_of(old(self).entities@[k].entity_id, old(self).circles@, old(self).controllers@),
                );
                &&& r@ == resolve(moved, owners)
                &&& well_formed_batch(r@)
                &&& final(self).entities@.len() == old(self).entities@.len() - r@.len()
                &&& forall|a: int| 0 <= a < r@.len() ==> {
                    &&& !has_entity(final(self).entities@, (#[trigger] r@[a]).prey)
                    &&& r@[a].prey_mass == lookup(moved, r@[a].prey).mass
                    &&& has_entity(moved, r@[a].prey)
                    &&& has_entity(moved, r@[a].predator)
                    &&& has_entity(final(self).entities@, r@[a].predator)
                    &&& lookup(final(self).entities@, r@[a].predator).mass == lookup(moved, r@[a].predator).mass
                        + gain(r@, r@[a].predator)
                }
                &&& forall|x: u32| uninvolved(r@, x) ==> {
                    &&& #[trigger] has_entity(final(self).entities@, x) == has_entity(moved, x)
                    &&& has_entity(moved, x) ==> lookup(final(self).entities@, x) == lookup(moved, x)
                }
                &&& records_dropped(old(self), final(self), prefix_set(prey_ids(r@), r@.len() as int))
            }),
            final(self).config == old(self).config,
            final(self).inputs == old(self).inputs,
            final(self).players == old(self).players,
            final(self).phase == old(self).phase,
    {
        self.move_circles();
        let snapshot = self.snapshot();
        let owners = self.owners();
        proof {
            assert forall|k: int| 0 <= k < snapshot.len() implies in_bounds(#[trigger] snapshot[k].position) by {
                assert(crate::world::entity_ok(self.entities@[k], self.next_entity_id, self.config));
            }
            assert(snapshot@ =~= Seq::new(
                old(self).entities@.len(),
                |k: int| after_move(old(self).entities@[k], old(self).circles@, old(self).config),
            ));
            assert forall|k: int| 0 <= k < snapshot.len() implies self.entities@[k].entity_id
                == old(self).entities@[k].entity_id by {}
            assert(owners@ =~= Seq::new(
                old(self).entities@.len(),
                |k: int| owner_of(old(self).entities@[k].entity_id, old(self).circles@, old(self).controllers@),
            ));
        }
        let evs = CollisionDetection::resolve_collisions(&snapshot, &owners);
        let ghost snap = snapshot@;
        proof {
            assert(snap.len() == old(self).entities@.len());
            lemma_resolve_batch(snap, owners@);
            assert forall|a: int| 0 <= a < evs@.len() implies {
                &&& has_entity(snap, (#[trigger] evs@[a]).predator)
                &&& has_entity(snap, evs@[a].prey)
                &&& evs@[a].prey_mass == lookup(snap, evs@[a].prey).mass
                &&& lookup(snap, evs@[a].predator).mass + gain(evs@, evs@[a].predator) <= u32::MAX
            } by {
                assert(from_snapshot(snap, evs@[a]));
                let (p, q) = choose|p: int, q: int|
                    0 <= p < snap.len() && 0 <= q < snap.len() && p != q && evs@[a] == #[trigger] eats(snap[p], snap[q]);
                lemma_lookup_at(snap, p);
                lemma_lookup_at(snap, q);
                assert(snap[p].mass + gain(evs@, snap[p].entity_id) <= u32::MAX);
            }
        }
        let ghost mid = *self;
        assert(records_dropped(old(self), &mid, Set::<u32>::empty()));
        self.apply_batch(&evs);
        proof {
            lemma_records_dropped_trans(old(self), &mid, self, Set::<u32>::empty(), prefix_set(prey_ids(evs@), evs@.len() as int));
            assert(Set::<u32>::empty().union(prefix_set(prey_ids(evs@), evs@.len() as int)) =~= prefix_set(prey_ids(evs@), evs@.len() as int));
        }
        evs
    }
}

/// Where applying the batch `evs` to `w0` stands after its first `i`
/// absorptions: their preys are gone, each predator has gained what they
/// brought, the other preys still hold `w0`'s values, and every other
/// entity and record is as in `w0`.
#[verifier::opaque]
pub open spec fn batch_state(w0: World, w: World, evs: Seq<Absorption>, i: int) -> bool {
    let snap = w0.entities@;
    &&& 0 <= i <= evs.len()
    &&& w.entities@.len() == snap.len() - i
    &&& entity_ids_unique(snap)
    &&& well_formed_batch(evs)
    &&& forall|a: int| 0 <= a < evs.len() ==> {
        &&& has_entity(snap, (#[trigger] evs[a]).predator)
        &&& has_entity(snap, evs[a].prey)
        &&& evs[a].prey_mass == lookup(snap, evs[a].prey).mass
        &&& lookup(snap, evs[a].predator).mass + gain(evs, evs[a].predator) <= u32::MAX
    }
    &&& forall|a: int| i <= a < evs.len() ==> {
        &&& has_entity(w.entities@, (#[trigger] evs[a]).prey)
        &&& lookup(w.entities@, evs[a].prey) == lookup(snap, evs[a].prey)
    }
    &&& forall|a: int| 0 <= a < evs.len() ==> {
        &&& has_entity(w.entities@, (#[trigger] evs[a]).predator)
        &&& lookup(w.entities@, evs[a].predator).mass == lookup(snap, evs[a].predator).mass + gain(
            evs.subrange(0, i),
            evs[a].predator,
        )
    }
    &&& forall|a: int| 0 <= a < i ==> !has_entity(w.entities@, (#[trigger] evs[a]).prey)
    &&& forall|x: u32| uninvolved(evs, x) ==> {
        &&& #[trigger] has_entity(w.entities@, x) == has_entity(snap, x)
        &&& has_entity(snap, x) ==> lookup(w.entities@, x) == lookup(snap, x)
    }
    &&& records_dropped(&w0, &w, prefix_set(prey_ids(evs), i))
}

impl World {
    /// Applies the next absorption of a batch.
    #[verifier::rlimit(60)]
    fn apply_one(&mut self, evs: &Vec<Absorption>, i: usize, w0: Ghost<World>)
        requires
            old(self).wf(),
            i < evs.len(),
            batch_state(w0@, *old(self), evs@, i as int),
        ensures
            final(self).wf(),
            batch_state(w0@, *final(self), evs@, i + 1),
            final(self).config == old(self).config,
            final(self).inputs == old(self).inputs,
            final(self).players == old(self).players,
            final(self).phase == old(self).phase,
    {
        reveal(batch_state);
        let ghost snap = w0@.entities@;
        let ev = evs[i];
        let ghost before = self.entities@;
        let ghost wb = *self;
        proof {
            assert(evs@[i as int] == ev);
            let sub = evs@.subrange(0, i as int);
            let sub1 = evs@.subrange(0, i + 1);
            assert(sub1 =~= sub.push(ev));
            lemma_gain_push(sub, ev, ev.predator);
            lemma_gain_prefix(evs@, i + 1, ev.predator);
        }
        let applied = self.absorb(ev.predator, ev.prey);
        proof {
            let pv = prey_ids(evs@);
            let sub = evs@.subrange(0, i as int);
            let sub1 = evs@.subrange(0, i + 1);
            assert(applied);
            lemma_records_dropped_trans(&w0@, &wb, self, prefix_set(pv, i as int), set![ev.prey]);
            assert(pv[i as int] == ev.prey);
            lemma_prefix_set_step(pv, i as int);
            assert forall|x: u32| uninvolved(evs@, x) implies {
                &&& #[trigger] has_entity(self.entities@, x) == has_entity(snap, x)
                &&& has_entity(snap, x) ==> lookup(self.entities@, x) == lookup(snap, x)
            } by {
                assert(evs@[i as int].predator != x && evs@[i as int].prey != x);
                assert(has_entity(before, x) == has_entity(snap, x));
            }
            assert forall|a: int| i + 1 <= a < evs@.len() implies {
                &&& has_entity(self.entities@, (#[trigger] evs@[a]).prey)
                &&& lookup(self.entities@, evs@[a].prey) == lookup(snap, evs@[a].prey)
            } by {
                assert(evs@[a].prey != ev.predator && evs@[a].prey != ev.prey);
            }
            assert forall|a: int| 0 <= a < evs@.len() implies {
                &&& has_entity(self.entities@, (#[trigger] evs@[a]).predator)
                &&& lookup(self.entities@, evs@[a].predator).mass == lookup(snap, evs@[a].predator).mass + gain(
                    sub1,
                    evs@[a].predator,
                )
            } by {
                let x = evs@[a].predator;
                assert(sub1 =~= sub.push(ev));
                lemma_gain_push(sub, ev, x);
                if x != ev.predator {
                    assert(x != ev.prey);
                    assert(gain(sub1, x) == gain(sub, x));
                }
            }
            assert forall|a: int| 0 <= a < i + 1 implies !has_entity(self.entities@, (#[trigger] evs@[a]).prey) by {
                if a < i {
                    assert(evs@[a].prey != ev.predator && evs@[a].prey != ev.prey);
                    assert(!has_entity(before, evs@[a].prey));
                }
            }
        }
    }

    /// Applies a well-formed batch of absorptions found on the current entities.
    fn apply_batch(&mut self, evs: &Vec<Absorption>)
        requires
            old(self).wf(),
            well_formed_batch(evs@),
            forall|a: int| 0 <= a < evs@.len() ==> {
                &&& has_entity(old(self).entities@, (#[trigger] evs@[a]).predator)
                &&& has_entity(old(self).entities@, evs@[a].prey)
                &&& evs@[a].prey_mass == lookup(old(self).entities@, evs@[a].prey).mass
                &&& lookup(old(self).entities@, evs@[a].predator).mass + gain(evs@, evs@[a].predator) <= u32::MAX
            },
        ensures
            final(self).wf(),
            final(self).entities@.len() == old(self).entities@.len() - evs@.len(),
            forall|a: int| 0 <= a < evs@.len() ==> {
                &&& !has_entity(final(self).entities@, (#[trigger] evs@[a]).prey)
                &&& has_entity(final(self).entities@, evs@[a].predator)
                &&& lookup(final(self).entities@, evs@[a].predator).mass == lookup(old(self).entities@, evs@[a].predator).mass
                    + gain(evs@, evs@[a].predator)
            },
            forall|x: u32| uninvolved(evs@, x) ==> {
                &&& #[trigger] has_entity(final(self).entities@, x) == has_entity(old(self).entities@, x)
                &&& has_entity(old(self).entities@, x) ==> lookup(final(self).entities@, x) == lookup(old(self).entities@, x)
            },
            records_dropped(old(self), final(self), prefix_set(prey_ids(evs@), evs@.len() as int)),
            final(self).config == old(self).config,
            final(self).inputs == old(self).inputs,
            final(self).players == old(self).players,
            final(self).phase == old(self).phase,
    {
        let ghost w0 = *self;
        proof {
            reveal(batch_state);
            assert(prefix_set(prey_ids(evs@), 0) =~= Set::<u32>::empty());
            assert(evs@.subrange(0, 0) =~= Seq::<Absorption>::empty());
            assert forall|x: u32| #[trigger] gain(evs@.subrange(0, 0), x) == 0 by {
                lemma_gain_push(evs@, Absorption { predator: 0, prey: 0, prey_mass: 0 }, x);
            }
            assert forall|x: u32| uninvolved(evs@, x) implies {
                &&& #[trigger] has_entity(self.entities@, x) == has_entity(w0.entities@, x)
                &&& has_entity(w0.entities@, x) ==> lookup(self.entities@, x) == lookup(w0.entities@, x)
            } by {}
            assert(batch_state(w0, *self, evs@, 0));
        }
        let mut i: usize = 0;
        while i < evs.len()
            invariant
                self.wf(),
                i <= evs.len(),
                batch_state(w0, *self, evs@, i as int),
                w0 == *old(self),
                self.config == old(self).config,
                self.inputs == old(self).inputs,
                self.players == old(self).players,
                self.phase == old(self).phase,
            decreases evs.len() - i,
        {
            self.apply_one(evs, i, Ghost(w0));
            i = i + 1;
        }
        proof {
            reveal(batch_state);
            assert(evs@.subrange(0, evs@.len() as int) =~= evs@);
        }
    }
}

} // verus!
