use vstd::prelude::*;
use crate::config::Config;
use crate::entity::{
    BodyType, Circle, Entity, EntityType, Food, MovementController, PhysicsBody, PlayerInput,
};
use crate::config::MILLI;
use crate::game_math::{GameMath, clamp_coord, lemma_clamp_keeps_radius_inside, radius_of};
use crate::vector::DbVector2;

verus! {

/// Why a store operation was refused.
#[derive(Clone, Copy, Debug, PartialEq, Eq, Structural)]
pub enum WorldError {
    /// Entities must have a positive mass.
    ZeroMass,
    /// Every entity id has been handed out.
    IdsExhausted,
    /// The entity id already has a physics body.
    EntityAlreadyMapped,
    /// The physics handle already belongs to an entity.
    HandleAlreadyMapped,
    /// No entity with that id exists.
    UnknownEntity,
}

/// Where the platformer physics tick stands: inputs are applied, then the
/// engine steps, then body states are synced, then ground flags are updated.
#[derive(Clone, Copy, Debug, PartialEq, Eq, Structural)]
pub enum TickPhase {
    Idle,
    InputsApplied,
    Stepped,
    Synced,
}

/// The canonical world state: entities and their attachments.
pub struct World {
    pub config: Config,
    pub next_entity_id: u32,
    pub entities: Vec<Entity>,
    pub foods: Vec<Food>,
    pub circles: Vec<Circle>,
    pub controllers: Vec<MovementController>,
    pub bodies: Vec<PhysicsBody>,
    pub inputs: Vec<PlayerInput>,
    /// Ids of the players currently in the game.
    pub players: Vec<u32>,
    pub phase: TickPhase,
}

/// A point brought inside the world for an entity of mass `mass`.
pub open spec fn clamp_point(p: DbVector2, mass: int, config: Config) -> DbVector2 {
    DbVector2 {
        x: clamp_coord(p.x as int, mass, config.extent()) as i64,
        y: clamp_coord(p.y as int, mass, config.extent()) as i64,
    }
}

pub open spec fn inside(p: DbVector2, config: Config) -> bool {
    0 <= p.x <= config.extent() && 0 <= p.y <= config.extent()
}

/// The position is where clamping for the entity's own mass leaves it.
pub open spec fn clamped(e: Entity, config: Config) -> bool {
    clamp_coord(e.position.x as int, e.mass as int, config.extent()) == e.position.x
        && clamp_coord(e.position.y as int, e.mass as int, config.extent()) == e.position.y
}

pub open spec fn entity_ok(e: Entity, next_id: u32, config: Config) -> bool {
    e.entity_id < next_id && e.mass > 0 && inside(e.position, config) && clamped(e, config)
}

pub open spec fn entity_ids_unique(s: Seq<Entity>) -> bool {
    forall|a: int, b: int| 0 <= a < b < s.len() ==> s[a].entity_id != s[b].entity_id
}

pub open spec fn food_ids_unique(s: Seq<Food>) -> bool {
    forall|a: int, b: int| 0 <= a < b < s.len() ==> s[a].entity_id != s[b].entity_id
}

pub open spec fn circle_ids_unique(s: Seq<Circle>) -> bool {
    forall|a: int, b: int| 0 <= a < b < s.len() ==> s[a].entity_id != s[b].entity_id
}

pub open spec fn controller_ids_unique(s: Seq<MovementController>) -> bool {
    forall|a: int, b: int| 0 <= a < b < s.len() ==> s[a].entity_id != s[b].entity_id
}

/// The entity-to-body mapping is one to one.
pub open spec fn bodies_bijective(s: Seq<PhysicsBody>) -> bool {
    forall|a: int, b: int|
        0 <= a < b < s.len() ==> s[a].entity_id != s[b].entity_id && s[a].handle != s[b].handle
}

pub open spec fn input_ids_unique(s: Seq<PlayerInput>) -> bool {
    forall|a: int, b: int| 0 <= a < b < s.len() ==> s[a].player_id != s[b].player_id
}

pub open spec fn has_entity(s: Seq<Entity>, id: u32) -> bool {
    exists|k: int| 0 <= k < s.len() && #[trigger] s[k].entity_id == id
}

/// Index of the entity with id `id` (meaningful where it exists).
pub open spec fn entity_index(s: Seq<Entity>, id: u32) -> int {
    choose|k: int| 0 <= k < s.len() && #[trigger] s[k].entity_id == id
}

/// The entity with id `id` (meaningful where it exists).
pub open spec fn lookup(s: Seq<Entity>, id: u32) -> Entity {
    s[entity_index(s, id)]
}

/// With unique ids, the entity at a position holding `id` is the one looked up.
pub proof fn lemma_lookup_at(s: Seq<Entity>, k: int)
    requires
        entity_ids_unique(s),
        0 <= k < s.len(),
    ensures
        has_entity(s, s[k].entity_id),
        entity_index(s, s[k].entity_id) == k,
        lookup(s, s[k].entity_id) == s[k],
{
    let id = s[k].entity_id;
    assert(has_entity(s, id));
    let j = entity_index(s, id);
    assert(0 <= j < s.len() && s[j].entity_id == id);
}

/// With unique ids, a present entity is the one looked up by its id.
pub proof fn lemma_lookup_contains(s: Seq<Entity>, e: Entity)
    requires
        entity_ids_unique(s),
        s.contains(e),
    ensures
        has_entity(s, e.entity_id),
        lookup(s, e.entity_id) == e,
{
    let k = choose|k: int| 0 <= k < s.len() && s[k] == e;
    lemma_lookup_at(s, k);
}

/// Ids of the entities whose movement controller belongs to `player_id`, in order.
pub open spec fn controlled_ids(s: Seq<MovementController>, player_id: u32) -> Seq<u32>
    decreases s.len(),
{
    if s.len() == 0 {
        Seq::empty()
    } else {
        let rest = controlled_ids(s.drop_last(), player_id);
        if s.last().player_id == player_id {
            rest.push(s.last().entity_id)
        } else {
            rest
        }
    }
}

/// Ids of the entities whose circle attachment belongs to `player_id`, in order.
pub open spec fn circle_ids(s: Seq<Circle>, player_id: u32) -> Seq<u32>
    decreases s.len(),
{
    if s.len() == 0 {
        Seq::empty()
    } else {
        let rest = circle_ids(s.drop_last(), player_id);
        if s.last().player_id == player_id {
            rest.push(s.last().entity_id)
        } else {
            rest
        }
    }
}

/// Where `t` holds the same entities as `s` but for those with id `id`, it
/// holds the same ids but perhaps `id`.
pub proof fn lemma_has_entity_kept(s: Seq<Entity>, t: Seq<Entity>, id: u32)
    requires
        forall|e: Entity| e.entity_id != id ==> (#[trigger] t.contains(e) == s.contains(e)),
    ensures
        forall|x: u32| x != id ==> (#[trigger] has_entity(t, x) == has_entity(s, x)),
{
    assert forall|x: u32| x != id implies (#[trigger] has_entity(t, x) == has_entity(s, x)) by {
        if has_entity(t, x) {
            let k = choose|k: int| 0 <= k < t.len() && #[trigger] t[k].entity_id == x;
            assert(t.contains(t[k]));
            assert(t[k].entity_id != id);
            assert(s.contains(t[k]));
            let j = choose|j: int| 0 <= j < s.len() && s[j] == t[k];
            assert(s[j].entity_id == x);
        }
        if has_entity(s, x) {
            let k = choose|k: int| 0 <= k < s.len() && #[trigger] s[k].entity_id == x;
            assert(s.contains(s[k]));
            assert(s[k].entity_id != id);
            assert(t.contains(s[k]));
            let j = choose|j: int| 0 <= j < t.len() && t[j] == s[k];
            assert(t[j].entity_id == x);
        }
    }
}

/// The first `n` ids of `s`, as a set.
pub open spec fn prefix_set(s: Seq<u32>, n: int) -> Set<u32> {
    Set::new(|x: u32| exists|t: int| 0 <= t < n && t < s.len() && s[t] == x)
}

/// The attachment records of `w2` are those of `w1` but for the records of
/// the entities in `gone`, none of which remains.
pub open spec fn records_dropped(w1: &World, w2: &World, gone: Set<u32>) -> bool {
    &&& forall|k: int| 0 <= k < w2.foods@.len() ==> !gone.contains(#[trigger] w2.foods@[k].entity_id)
    &&& forall|f: Food| !gone.contains(f.entity_id) ==> (#[trigger] w2.foods@.contains(f) == w1.foods@.contains(f))
    &&& forall|k: int| 0 <= k < w2.circles@.len() ==> !gone.contains(#[trigger] w2.circles@[k].entity_id)
    &&& forall|c: Circle| !gone.contains(c.entity_id) ==> (#[trigger] w2.circles@.contains(c) == w1.circles@.contains(c))
    &&& forall|k: int| 0 <= k < w2.controllers@.len() ==> !gone.contains(#[trigger] w2.controllers@[k].entity_id)
    &&& forall|c: MovementController| !gone.contains(c.entity_id) ==> (#[trigger] w2.controllers@.contains(c)
        == w1.controllers@.contains(c))
    &&& forall|k: int| 0 <= k < w2.bodies@.len() ==> !gone.contains(#[trigger] w2.bodies@[k].entity_id)
    &&& forall|b: PhysicsBody| !gone.contains(b.entity_id) ==> (#[trigger] w2.bodies@.contains(b)
        == w1.bodies@.contains(b))
}

/// Growing the prefix by one adds its last id.
pub proof fn lemma_prefix_set_step(s: Seq<u32>, i: int)
    requires
        0 <= i < s.len(),
    ensures
        prefix_set(s, i + 1) == prefix_set(s, i).union(set![s[i]]),
{
    assert forall|x: u32| prefix_set(s, i + 1).contains(x) implies prefix_set(s, i).union(set![s[i]]).contains(x) by {
        let t = choose|t: int| 0 <= t < i + 1 && t < s.len() && s[t] == x;
        if t < i {
            assert(prefix_set(s, i).contains(x));
        }
    }
    assert forall|x: u32| prefix_set(s, i).union(set![s[i]]).contains(x) implies prefix_set(s, i + 1).contains(x) by {
        if x == s[i] {
            assert(0 <= i < i + 1 && s[i] == x);
        } else {
            let t = choose|t: int| 0 <= t < i && t < s.len() && s[t] == x;
            assert(0 <= t < i + 1 && s[t] == x);
        }
    }
    assert(prefix_set(s, i + 1) =~= prefix_set(s, i).union(set![s[i]]));
}

/// Dropping records in two steps drops those of both sets.
pub proof fn lemma_records_dropped_trans(w1: &World, w2: &World, w3: &World, g1: Set<u32>, g2: Set<u32>)
    requires
        records_dropped(w1, w2, g1),
        records_dropped(w2, w3, g2),
    ensures
        records_dropped(w1, w3, g1.union(g2)),
{
    assert forall|k: int| 0 <= k < w3.foods@.len() implies !g1.union(g2).contains(#[trigger] w3.foods@[k].entity_id) by {
        let f = w3.foods@[k];
        assert(w3.foods@.contains(f));
        assert(!g2.contains(f.entity_id));
        assert(w2.foods@.contains(f));
        let j = choose|j: int| 0 <= j < w2.foods@.len() && w2.foods@[j] == f;
        assert(!g1.contains(w2.foods@[j].entity_id));
    }
    assert forall|k: int| 0 <= k < w3.circles@.len() implies !g1.union(g2).contains(#[trigger] w3.circles@[k].entity_id) by {
        let f = w3.circles@[k];
        assert(w3.circles@.contains(f));
        assert(!g2.contains(f.entity_id));
        assert(w2.circles@.contains(f));
        let j = choose|j: int| 0 <= j < w2.circles@.len() && w2.circles@[j] == f;
        assert(!g1.contains(w2.circles@[j].entity_id));
    }
    assert forall|k: int| 0 <= k < w3.controllers@.len() implies !g1.union(g2).contains(
        #[trigger] w3.controllers@[k].entity_id,
    ) by {
        let f = w3.controllers@[k];
        assert(w3.controllers@.contains(f));
        assert(!g2.contains(f.entity_id));
        assert(w2.controllers@.contains(f));
        let j = choose|j: int| 0 <= j < w2.controllers@.len() && w2.controllers@[j] == f;
        assert(!g1.contains(w2.controllers@[j].entity_id));
    }
    assert forall|k: int| 0 <= k < w3.bodies@.len() implies !g1.union(g2).contains(#[trigger] w3.bodies@[k].entity_id) by {
        let f = w3.bodies@[k];
        assert(w3.bodies@.contains(f));
        assert(!g2.contains(f.entity_id));
        assert(w2.bodies@.contains(f));
        let j = choose|j: int| 0 <= j < w2.bodies@.len() && w2.bodies@[j] == f;
        assert(!g1.contains(w2.bodies@[j].entity_id));
    }
}

/// In every well-formed world, each entity that fits in the world lies at
/// least its radius away from every edge: `radius <= x <= extent - radius`
/// and the same for `y`, squared in milli-units.
pub proof fn lemma_entities_keep_radius_inside(w: &World, k: int)
    requires
        w.wf(),
        0 <= k < w.entities@.len(),
        radius_of(w.entities@[k].mass as int) <= w.config.extent() - radius_of(w.entities@[k].mass as int),
    ensures
        ({
            let e = w.entities@[k];
            let ext = w.config.extent();
            let m = e.mass * MILLI * MILLI;
            &&& e.position.x * e.position.x >= m
            &&& (ext - e.position.x) * (ext - e.position.x) >= m
            &&& e.position.y * e.position.y >= m
            &&& (ext - e.position.y) * (ext - e.position.y) >= m
        }),
{
    let e = w.entities@[k];
    assert(entity_ok(e, w.next_entity_id, w.config));
    lemma_clamp_keeps_radius_inside(e.position.x as int, e.mass as int, w.config.extent());
    lemma_clamp_keeps_radius_inside(e.position.y as int, e.mass as int, w.config.extent());
}

/// Removing an element other than `x` keeps whether `x` is present.
pub proof fn lemma_remove_keeps<T>(s: Seq<T>, k: int, x: T)
    requires
        0 <= k < s.len(),
        s[k] != x,
    ensures
        s.remove(k).contains(x) == s.contains(x),
{
    let r = s.remove(k);
    if s.contains(x) {
        let t = choose|t: int| 0 <= t < s.len() && s[t] == x;
        if t < k {
            assert(r[t] == x);
        } else {
            assert(r[t - 1] == x);
        }
    }
    if r.contains(x) {
        let t = choose|t: int| 0 <= t < r.len() && r[t] == x;
        if t < k {
            assert(s[t] == x);
        } else {
            assert(s[t + 1] == x);
        }
    }
}

impl World {
    pub open spec fn wf(&self) -> bool {
        &&& self.config.wf()
        &&& forall|k: int|
            0 <= k < self.entities.len() ==> entity_ok(
                #[trigger] self.entities@[k],
                self.next_entity_id,
                self.config,
            )
        &&& entity_ids_unique(self.entities@)
        &&& food_ids_unique(self.foods@)
        &&& circle_ids_unique(self.circles@)
        &&& controller_ids_unique(self.controllers@)
        &&& bodies_bijective(self.bodies@)
        &&& input_ids_unique(self.inputs@)
        &&& forall|a: int, b: int| 0 <= a < b < self.players.len() ==> self.players@[a] != self.players@[b]
        &&& forall|k: int| 0 <= k < self.foods.len() ==> #[trigger] self.foods@[k].entity_id < self.next_entity_id
        &&& forall|k: int| 0 <= k < self.circles.len() ==> #[trigger] self.circles@[k].entity_id < self.next_entity_id
        &&& forall|k: int|
            0 <= k < self.controllers.len() ==> #[trigger] self.controllers@[k].entity_id < self.next_entity_id
        &&& forall|k: int| 0 <= k < self.bodies.len() ==> #[trigger] self.bodies@[k].entity_id < self.next_entity_id
    }

    /// An empty world.
    pub fn new(config: Config) -> (r: World)
        requires
            config.wf(),
        ensures
            r.wf(),
            r.config == config,
            r.entities@.len() == 0,
            r.foods@.len() == 0,
            r.circles@.len() == 0,
            r.controllers@.len() == 0,
            r.bodies@.len() == 0,
            r.inputs@.len() == 0,
            r.players@.len() == 0,
            r.phase == TickPhase::Idle,
    {
        World {
            config,
            next_entity_id: 1,
            entities: Vec::new(),
            foods: Vec::new(),
            circles: Vec::new(),
            controllers: Vec::new(),
            bodies: Vec::new(),
            inputs: Vec::new(),
            players: Vec::new(),
            phase: TickPhase::Idle,
        }
    }

    /// Index of the entity with the given id.
    pub fn find_entity(&self, id: u32) -> (r: Option<usize>)
        ensures
            match r {
                Some(k) => k < self.entities.len() && self.entities@[k as int].entity_id == id,
                None => forall|k: int| 0 <= k < self.entities.len() ==> self.entities@[k].entity_id != id,
            },
    {
        let mut k: usize = 0;
        while k < self.entities.len()
            invariant
                k <= self.entities.len(),
                forall|t: int| 0 <= t < k ==> self.entities@[t].entity_id != id,
            decreases self.entities.len() - k,
        {
            if self.entities[k].entity_id == id {
                return Some(k);
            }
            k = k + 1;
        }
        None
    }

    fn find_food(&self, id: u32) -> (r: Option<usize>)
        ensures
            match r {
                Some(k) => k < self.foods.len() && self.foods@[k as int].entity_id == id,
                None => forall|k: int| 0 <= k < self.foods.len() ==> self.foods@[k].entity_id != id,
            },
    {
        let mut k: usize = 0;
        while k < self.foods.len()
            invariant
                k <= self.foods.len(),
                forall|t: int| 0 <= t < k ==> self.foods@[t].entity_id != id,
            decreases self.foods.len() - k,
        {
            if self.foods[k].entity_id == id {
                return Some(k);
            }
            k = k + 1;
        }
        None
    }

    pub fn find_circle(&self, id: u32) -> (r: Option<usize>)
        ensures
            match r {
                Some(k) => k < self.circles.len() && self.circles@[k as int].entity_id == id,
                None => forall|k: int| 0 <= k < self.circles.len() ==> self.circles@[k].entity_id != id,
            },
    {
        let mut k: usize = 0;
        while k < self.circles.len()
            invariant
                k <= self.circles.len(),
                forall|t: int| 0 <= t < k ==> self.circles@[t].entity_id != id,
            decreases self.circles.len() - k,
        {
            if self.circles[k].entity_id == id {
                return Some(k);
            }
            k = k + 1;
        }
        None
    }

    pub fn find_controller(&self, id: u32) -> (r: Option<usize>)
        ensures
            match r {
                Some(k) => k < self.controllers.len() && self.controllers@[k as int].entity_id == id,
                None => forall|k: int|
                    0 <= k < self.controllers.len() ==> self.controllers@[k].entity_id != id,
            },
    {
        let mut k: usize = 0;
        while k < self.controllers.len()
            invariant
                k <= self.controllers.len(),
                forall|t: int| 0 <= t < k ==> self.controllers@[t].entity_id != id,
            decreases self.controllers.len() - k,
        {
            if self.controllers[k].entity_id == id {
                return Some(k);
            }
            k = k + 1;
        }
        None
    }

    /// Index of the body mapped to the given entity id.
    pub fn find_body(&self, id: u32) -> (r: Option<usize>)
        ensures
            match r {
                Some(k) => k < self.bodies.len() && self.bodies@[k as int].entity_id == id,
                None => forall|k: int| 0 <= k < self.bodies.len() ==> self.bodies@[k].entity_id != id,
            },
    {
        let mut k: usize = 0;
        while k < self.bodies.len()
            invariant
                k <= self.bodies.len(),
                forall|t: int| 0 <= t < k ==> self.bodies@[t].entity_id != id,
            decreases self.bodies.len() - k,
        {
            if self.bodies[k].entity_id == id {
                return Some(k);
            }
            k = k + 1;
        }
        None
    }

    /// Index of the body with the given engine handle.
    pub fn find_handle(&self, handle: u64) -> (r: Option<usize>)
        ensures
            match r {
                Some(k) => k < self.bodies.len() && self.bodies@[k as int].handle == handle,
                None => forall|k: int| 0 <= k < self.bodies.len() ==> self.bodies@[k].handle != handle,
            },
    {
        let mut k: usize = 0;
        while k < self.bodies.len()
            invariant
                k <= self.bodies.len(),
                forall|t: int| 0 <= t < k ==> self.bodies@[t].handle != handle,
            decreases self.bodies.len() - k,
        {
            if self.bodies[k].handle == handle {
                return Some(k);
            }
            k = k + 1;
        }
        None
    }

    /// Index of the input record of the given player.
    pub fn find_input(&self, player_id: u32) -> (r: Option<usize>)
        ensures
            match r {
                Some(k) => k < self.inputs.len() && self.inputs@[k as int].player_id == player_id,
                None => forall|k: int| 0 <= k < self.inputs.len() ==> self.inputs@[k].player_id != player_id,
            },
    {
        let mut k: usize = 0;
        while k < self.inputs.len()
            invariant
                k <= self.inputs.len(),
                forall|t: int| 0 <= t < k ==> self.inputs@[t].player_id != player_id,
            decreases self.inputs.len() - k,
        {
            if self.inputs[k].player_id == player_id {
                return Some(k);
            }
            k = k + 1;
        }
        None
    }

    /// Index of the player in the list of players in the game.
    pub fn find_player(&self, player_id: u32) -> (r: Option<usize>)
        ensures
            match r {
                Some(k) => k < self.players.len() && self.players@[k as int] == player_id,
                None => forall|k: int| 0 <= k < self.players.len() ==> self.players@[k] != player_id,
            },
    {
        let mut k: usize = 0;
        while k < self.players.len()
            invariant
                k <= self.players.len(),
                forall|t: int| 0 <= t < k ==> self.players@[t] != player_id,
            decreases self.players.len() - k,
        {
            if self.players[k] == player_id {
                return Some(k);
            }
            k = k + 1;
        }
        None
    }

    /// Whether the player is in the game.
    pub fn has_player(&self, player_id: u32) -> (r: bool)
        ensures
            r == self.players@.contains(player_id),
    {
        let mut k: usize = 0;
        while k < self.players.len()
            invariant
                k <= self.players.len(),
                forall|t: int| 0 <= t < k ==> self.players@[t] != player_id,
            decreases self.players.len() - k,
        {
            if self.players[k] == player_id {
                return true;
            }
            k = k + 1;
        }
        false
    }

    /// The entity with the given id.
    pub fn get(&self, id: u32) -> (r: Option<Entity>)
        ensures
            match r {
                Some(e) => e.entity_id == id && self.entities@.contains(e),
                None => !has_entity(self.entities@, id),
            },
    {
        match self.find_entity(id) {
            Some(k) => Some(self.entities[k]),
            None => None,
        }
    }

    /// Position and velocity of an entity that has a physics body, as last
    /// synced from the engine.
    pub fn query_state(&self, id: u32) -> (r: Option<(DbVector2, DbVector2)>)
        requires
            self.wf(),
        ensures
            r.is_some() == (has_entity(self.entities@, id) && exists|k: int|
                0 <= k < self.bodies.len() && #[trigger] self.bodies@[k].entity_id == id),
            r matches Some(st) ==> st == (lookup(self.entities@, id).position, lookup(self.entities@, id).velocity),
    {
        if self.find_body(id).is_none() {
            return None;
        }
        match self.find_entity(id) {
            Some(k) => {
                proof {
                    lemma_lookup_at(self.entities@, k as int);
                }
                Some((self.entities[k].position, self.entities[k].velocity))
            },
            None => None,
        }
    }

    /// A copy of every entity, in store order.
    pub fn snapshot(&self) -> (r: Vec<Entity>)
        ensures
            r@ == self.entities@,
    {
        self.entities.clone()
    }

    /// Creates an entity with a fresh id; its position is brought inside the world.
    pub fn create(&mut self, position: DbVector2, mass: u32, entity_type: EntityType) -> (r: Result<u32, WorldError>)
        requires
            old(self).wf(),
        ensures
            final(self).wf(),
            final(self).config == old(self).config,
            final(self).foods == old(self).foods,
            final(self).circles == old(self).circles,
            final(self).controllers == old(self).controllers,
            final(self).bodies == old(self).bodies,
            final(self).inputs == old(self).inputs,
            final(self).players == old(self).players,
            final(self).phase == old(self).phase,
            mass == 0 ==> r == Err::<u32, WorldError>(WorldError::ZeroMass),
            mass > 0 && old(self).next_entity_id == u32::MAX ==> r == Err::<u32, WorldError>(WorldError::IdsExhausted),
            r.is_err() ==> final(self).entities == old(self).entities
                && final(self).next_entity_id == old(self).next_entity_id,
            mass > 0 && old(self).next_entity_id < u32::MAX ==> r.is_ok(),
            r matches Ok(id) ==> {
                &&& id == old(self).next_entity_id
                &&& final(self).next_entity_id == id + 1
                &&& !has_entity(old(self).entities@, id)
                &&& final(self).entities@ == old(self).entities@.push(Entity {
                    entity_id: id,
                    position: clamp_point(position, mass as int, old(self).config),
                    velocity: DbVector2 { x: 0, y: 0 },
                    mass,
                    entity_type,
                })
            },
    {
        if mass == 0 {
            return Err(WorldError::ZeroMass);
        }
        if self.next_entity_id == u32::MAX {
            return Err(WorldError::IdsExhausted);
        }
        let id = self.next_entity_id;
        let x = GameMath::clamp_to_world(position.x, mass, &self.config);
        let y = GameMath::clamp_to_world(position.y, mass, &self.config);
        let e = Entity {
            entity_id: id,
            position: DbVector2 { x, y },
            velocity: DbVector2 { x: 0, y: 0 },
            mass,
            entity_type,
        };
        self.entities.push(e);
        self.next_entity_id = id + 1;
        proof {
            assert(!has_entity(old(self).entities@, id)) by {
                if has_entity(old(self).entities@, id) {
                    let k = choose|k: int| 0 <= k < old(self).entities@.len() && #[trigger] old(self).entities@[k].entity_id == id;
                    assert(entity_ok(old(self).entities@[k], id, old(self).config));
                }
            }
            assert forall|k: int| 0 <= k < self.entities.len() implies entity_ok(
                #[trigger] self.entities@[k],
                self.next_entity_id,
                self.config,
            ) by {
                if k < old(self).entities.len() {
                    assert(entity_ok(old(self).entities@[k], id, self.config));
                }
            }
        }
        Ok(id)
    }
    /// Deletes the entity and every record attached to it.
    #[verifier::rlimit(40)]
    pub fn delete(&mut self, id: u32) -> (r: bool)
        requires
            old(self).wf(),
        ensures
            final(self).wf(),
            r == has_entity(old(self).entities@, id),
            !has_entity(final(self).entities@, id),
            final(self).entities@.len() == old(self).entities@.len() - (if r { 1int } else { 0int }),
            forall|e: Entity| e.entity_id != id ==> (#[trigger] final(self).entities@.contains(e)
                == old(self).entities@.contains(e)),
            forall|x: u32| x != id ==> (#[trigger] has_entity(final(self).entities@, x) == has_entity(
                old(self).entities@,
                x,
            )),
            forall|k: int| 0 <= k < final(self).foods@.len() ==> #[trigger] final(self).foods@[k].entity_id != id,
            forall|f: Food| f.entity_id != id ==> (#[trigger] final(self).foods@.contains(f)
                == old(self).foods@.contains(f)),
            forall|k: int| 0 <= k < final(self).circles@.len() ==> #[trigger] final(self).circles@[k].entity_id != id,
            forall|c: Circle| c.entity_id != id ==> (#[trigger] final(self).circles@.contains(c)
                == old(self).circles@.contains(c)),
            forall|k: int| 0 <= k < final(self).controllers@.len()
                ==> #[trigger] final(self).controllers@[k].entity_id != id,
            forall|c: MovementController| c.entity_id != id ==> (#[trigger] final(self).controllers@.contains(c)
                == old(self).controllers@.contains(c)),
            forall|k: int| 0 <= k < final(self).bodies@.len() ==> #[trigger] final(self).bodies@[k].entity_id != id,
            forall|b: PhysicsBody| b.entity_id != id ==> (#[trigger] final(self).bodies@.contains(b)
                == old(self).bodies@.contains(b)),
            records_dropped(old(self), final(self), set![id]),
            final(self).config == old(self).config,
            final(self).next_entity_id == old(self).next_entity_id,
            final(self).inputs == old(self).inputs,
            final(self).players == old(self).players,
            final(self).phase == old(self).phase,
    {
        let found = match self.find_entity(id) {
            Some(k) => {
                let ghost s = self.entities@;
                self.entities.remove(k);
                proof {
                    assert forall|e: Entity| e.entity_id != id implies
                        (#[trigger] self.entities@.contains(e) == s.contains(e)) by {
                        lemma_remove_keeps(s, k as int, e);
                    }
                    assert forall|t: int| 0 <= t < self.entities.len() implies
                        #[trigger] self.entities@[t].entity_id != id by {
                        if t >= k {
                            assert(self.entities@[t] == s[t + 1]);
                        }
                    }
                }
                true
            },
            None => false,
        };
        match self.find_food(id) {
            Some(k) => {
                let ghost s = self.foods@;
                self.foods.remove(k);
                proof {
                    assert forall|f: Food| f.entity_id != id implies
                        (#[trigger] self.foods@.contains(f) == s.contains(f)) by {
                        lemma_remove_keeps(s, k as int, f);
                    }
                    assert forall|t: int| 0 <= t < self.foods.len() implies
                        #[trigger] self.foods@[t].entity_id != id by {
                        if t >= k {
                            assert(self.foods@[t] == s[t + 1]);
                        }
                    }
                }
            },
            None => {},
        }
        match self.find_circle(id) {
            Some(k) => {
                let ghost s = self.circles@;
                self.circles.remove(k);
                proof {
                    assert forall|c: Circle| c.entity_id != id implies
                        (#[trigger] self.circles@.contains(c) == s.contains(c)) by {
                        lemma_remove_keeps(s, k as int, c);
                    }
                    assert forall|t: int| 0 <= t < self.circles.len() implies
                        #[trigger] self.circles@[t].entity_id != id by {
                        if t >= k {
                            assert(self.circles@[t] == s[t + 1]);
                        }
                    }
                }
            },
            None => {},
        }
        match self.find_controller(id) {
            Some(k) => {
                let ghost s = self.controllers@;
                self.controllers.remove(k);
                proof {
                    assert forall|c: MovementController| c.entity_id != id implies
                        (#[trigger] self.controllers@.contains(c) == s.contains(c)) by {
                        lemma_remove_keeps(s, k as int, c);
                    }
                    assert forall|t: int| 0 <= t < self.controllers.len() implies
                        #[trigger] self.controllers@[t].entity_id != id by {
                        if t >= k {
                            assert(self.controllers@[t] == s[t + 1]);
                        }
                    }
                }
            },
            None => {},
        }
        match self.find_body(id) {
            Some(k) => {
                let ghost s = self.bodies@;
                self.bodies.remove(k);
                proof {
                    assert forall|b: PhysicsBody| b.entity_id != id implies
                        (#[trigger] self.bodies@.contains(b) == s.contains(b)) by {
                        lemma_remove_keeps(s, k as int, b);
                    }
                    assert forall|t: int| 0 <= t < self.bodies.len() implies
                        #[trigger] self.bodies@[t].entity_id != id by {
                        if t >= k {
                            assert(self.bodies@[t] == s[t + 1]);
                        }
                    }
                }
            },
            None => {},
        }
        proof {
            lemma_has_entity_kept(old(self).entities@, self.entities@, id);
        }
        found
    }
    /// Moves an entity; the new position is brought inside the world.
    pub fn update_position(&mut self, id: u32, position: DbVector2) -> (r: bool)
        requires
            old(self).wf(),
        ensures
            final(self).wf(),
            r == has_entity(old(self).entities@, id),
            r ==> final(self).entities@ == old(self).entities@.update(
                entity_index(old(self).entities@, id),
                Entity {
                    position: clamp_point(position, lookup(old(self).entities@, id).mass as int, old(self).config),
                    ..lookup(old(self).entities@, id)
                },
            ),
            !r ==> final(self).entities == old(self).entities,
            final(self).config == old(self).config,
            final(self).next_entity_id == old(self).next_entity_id,
            final(self).foods == old(self).foods,
            final(self).circles == old(self).circles,
            final(self).controllers == old(self).controllers,
            final(self).bodies == old(self).bodies,
            final(self).inputs == old(self).inputs,
            final(self).players == old(self).players,
            final(self).phase == old(self).phase,
    {
        match self.find_entity(id) {
            Some(k) => {
                proof {
                    lemma_lookup_at(self.entities@, k as int);
                }
                let e = self.entities[k];
                let x = GameMath::clamp_to_world(position.x, e.mass, &self.config);
                let y = GameMath::clamp_to_world(position.y, e.mass, &self.config);
                self.entities.set(k, Entity { position: DbVector2 { x, y }, ..e });
                true
            },
            None => false,
        }
    }

    /// Absorption: `prey` is deleted with all its records and its mass is
    /// added to `predator`. Nothing happens where either is missing, they are
    /// the same entity, or the sum would not fit.
    pub fn absorb(&mut self, predator: u32, prey: u32) -> (r: bool)
        requires
            old(self).wf(),
        ensures
            final(self).wf(),
            r == (predator != prey && has_entity(old(self).entities@, predator) && has_entity(
                old(self).entities@,
                prey,
            ) && lookup(old(self).entities@, predator).mass + lookup(old(self).entities@, prey).mass
                <= u32::MAX),
            r ==> {
                &&& has_entity(final(self).entities@, predator)
                &&& lookup(final(self).entities@, predator).mass == lookup(old(self).entities@, predator).mass
                    + lookup(old(self).entities@, prey).mass
                &&& lookup(final(self).entities@, predator).position == clamp_point(
                    lookup(old(self).entities@, predator).position,
                    lookup(final(self).entities@, predator).mass as int,
                    old(self).config,
                )
                &&& !has_entity(final(self).entities@, prey)
                &&& final(self).entities@.len() + 1 == old(self).entities@.len()
                &&& records_dropped(old(self), final(self), set![prey])
            },
            forall|x: u32| x != predator && x != prey ==> (#[trigger] has_entity(final(self).entities@, x)
                == has_entity(old(self).entities@, x)),
            forall|x: u32| x != predator && x != prey && has_entity(old(self).entities@, x) ==> #[trigger] lookup(
                final(self).entities@,
                x,
            ) == lookup(old(self).entities@, x),
            !r ==> final(self).entities == old(self).entities && final(self).foods == old(self).foods
                && final(self).circles == old(self).circles && final(self).controllers == old(self).controllers
                && final(self).bodies == old(self).bodies,
            final(self).config == old(self).config,
            final(self).next_entity_id == old(self).next_entity_id,
            final(self).inputs == old(self).inputs,
            final(self).players == old(self).players,
            final(self).phase == old(self).phase,
    {
        if predator == prey {
            return false;
        }
        let kp = match self.find_entity(predator) {
            Some(k) => k,
            None => return false,
        };
        let kq = match self.find_entity(prey) {
            Some(k) => k,
            None => return false,
        };
        proof {
            lemma_lookup_at(self.entities@, kp as int);
            lemma_lookup_at(self.entities@, kq as int);
        }
        let pe = self.entities[kp];
        let qe = self.entities[kq];
        if (pe.mass as u64) + (qe.mass as u64) > u32::MAX as u64 {
            return false;
        }
        let mass = pe.mass + qe.mass;
        let x = GameMath::clamp_to_world(pe.position.x, mass, &self.config);
        let y = GameMath::clamp_to_world(pe.position.y, mass, &self.config);
        let grown = Entity { mass, position: DbVector2 { x, y }, ..pe };
        self.entities.set(kp, grown);
        proof {
            assert(entity_ok(self.entities@[kp as int], self.next_entity_id, self.config));
            assert(self.entities@.contains(grown)) by {
                assert(self.entities@[kp as int] == grown);
            }
            assert(has_entity(self.entities@, prey)) by {
                assert(self.entities@[kq as int].entity_id == prey);
            }
        }
        let ghost mid = self.entities@;
        proof {
            assert forall|x: u32| x != predator && has_entity(old(self).entities@, x) implies has_entity(mid, x)
                && lookup(mid, x) == lookup(old(self).entities@, x) && mid.contains(lookup(old(self).entities@, x)) by {
                let k = entity_index(old(self).entities@, x);
                lemma_lookup_at(old(self).entities@, k);
                assert(k != kp);
                assert(mid[k] == old(self).entities@[k]);
                lemma_lookup_at(mid, k);
            }
            assert forall|x: u32| x != predator && has_entity(mid, x) implies has_entity(old(self).entities@, x) by {
                let k = entity_index(mid, x);
                assert(old(self).entities@[k].entity_id == x);
            }
        }
        self.delete(prey);
        proof {
            assert(self.entities@.contains(grown));
            lemma_lookup_contains(self.entities@, grown);
            assert forall|x: u32| x != predator && x != prey && has_entity(old(self).entities@, x) implies #[trigger] lookup(
                self.entities@,
                x,
            ) == lookup(old(self).entities@, x) by {
                let e = lookup(old(self).entities@, x);
                let k = entity_index(old(self).entities@, x);
                lemma_lookup_at(old(self).entities@, k);
                assert(e.entity_id == x);
                assert(k != kp);
                assert(mid[k] == e);
                assert(mid.contains(e));
                assert(self.entities@.contains(e));
                lemma_lookup_contains(self.entities@, e);
            }
        }
        true
    }

    /// Adds a player to the game; already present players stay once.
    pub fn add_player(&mut self, player_id: u32)
        requires
            old(self).wf(),
        ensures
            final(self).wf(),
            final(self).players@.contains(player_id),
            forall|p: u32| p != player_id ==> (#[trigger] final(self).players@.contains(p) == old(self).players@.contains(p)),
            final(self).config == old(self).config,
            final(self).next_entity_id == old(self).next_entity_id,
            final(self).entities == old(self).entities,
            final(self).foods == old(self).foods,
            final(self).circles == old(self).circles,
            final(self).controllers == old(self).controllers,
            final(self).bodies == old(self).bodies,
            final(self).inputs == old(self).inputs,
            final(self).phase == old(self).phase,
    {
        if !self.has_player(player_id) {
            self.players.push(player_id);
            proof {
                assert(self.players@.last() == player_id);
                assert forall|p: u32| p != player_id implies
                    (#[trigger] self.players@.contains(p) == old(self).players@.contains(p)) by {
                    if old(self).players@.contains(p) {
                        let t = choose|t: int| 0 <= t < old(self).players@.len() && old(self).players@[t] == p;
                        assert(self.players@[t] == p);
                    }
                    if self.players@.contains(p) {
                        let t = choose|t: int| 0 <= t < self.players@.len() && self.players@[t] == p;
                        assert(old(self).players@[t] == p);
                    }
                }
            }
        }
    }

    /// Ids of the entities the player controls, through movement
    /// controllers and then circle attachments, in store order.
    pub fn entities_of_player(&self, player_id: u32) -> (r: Vec<u32>)
        ensures
            r@ == controlled_ids(self.controllers@, player_id) + circle_ids(self.circles@, player_id),
    {
        let mut r: Vec<u32> = Vec::new();
        let mut k: usize = 0;
        while k < self.controllers.len()
            invariant
                k <= self.controllers.len(),
                r@ == controlled_ids(self.controllers@.subrange(0, k as int), player_id),
            decreases self.controllers.len() - k,
        {
            let c = self.controllers[k];
            assert(self.controllers@.subrange(0, k + 1).drop_last() =~= self.controllers@.subrange(0, k as int));
            if c.player_id == player_id {
                r.push(c.entity_id);
            }
            k = k + 1;
        }
        assert(self.controllers@.subrange(0, k as int) =~= self.controllers@);
        let ghost head = r@;
        let mut k: usize = 0;
        while k < self.circles.len()
            invariant
                k <= self.circles.len(),
                r@ == head + circle_ids(self.circles@.subrange(0, k as int), player_id),
            decreases self.circles.len() - k,
        {
            let c = self.circles[k];
            assert(self.circles@.subrange(0, k + 1).drop_last() =~= self.circles@.subrange(0, k as int));
            if c.player_id == player_id {
                r.push(c.entity_id);
                assert(r@ =~= head + circle_ids(self.circles@.subrange(0, k + 1), player_id));
            } else {
                assert(r@ =~= head + circle_ids(self.circles@.subrange(0, k + 1), player_id));
            }
            k = k + 1;
        }
        assert(self.circles@.subrange(0, k as int) =~= self.circles@);
        r
    }
    /// Takes a player out of the game: deletes every entity it controls,
    /// with their records, and forgets the player.
    pub fn remove_player(&mut self, player_id: u32)
        requires
            old(self).wf(),
        ensures
            final(self).wf(),
            !final(self).players@.contains(player_id),
            forall|p: u32| p != player_id ==> (#[trigger] final(self).players@.contains(p) == old(self).players@.contains(p)),
            forall|id: u32|
                (controlled_ids(old(self).controllers@, player_id) + circle_ids(old(self).circles@, player_id)).contains(id)
                    ==> !#[trigger] has_entity(final(self).entities@, id),
            forall|id: u32|
                !(controlled_ids(old(self).controllers@, player_id) + circle_ids(old(self).circles@, player_id)).contains(id)
                    ==> (#[trigger] has_entity(final(self).entities@, id) == has_entity(old(self).entities@, id)),
            records_dropped(
                old(self),
                final(self),
                prefix_set(
                    controlled_ids(old(self).controllers@, player_id) + circle_ids(old(self).circles@, player_id),
                    (controlled_ids(old(self).controllers@, player_id) + circle_ids(old(self).circles@, player_id)).len() as int,
                ),
            ),
            final(self).config == old(self).config,
            final(self).inputs == old(self).inputs,
            final(self).phase == old(self).phase,
    {
        let ids = self.entities_of_player(player_id);
        assert(prefix_set(ids@, 0) =~= Set::<u32>::empty());
        let mut i: usize = 0;
        while i < ids.len()
            invariant
                self.wf(),
                i <= ids.len(),
                forall|t: int| 0 <= t < i ==> !#[trigger] has_entity(self.entities@, ids@[t]),
                forall|x: u32| !ids@.subrange(0, i as int).contains(x) ==> (#[trigger] has_entity(self.entities@, x)
                    == has_entity(old(self).entities@, x)),
                records_dropped(old(self), self, prefix_set(ids@, i as int)),
                self.config == old(self).config,
                self.inputs == old(self).inputs,
                self.players == old(self).players,
                self.phase == old(self).phase,
            decreases ids.len() - i,
        {
            let ghost before = self.entities@;
            let ghost wb = *self;
            self.delete(ids[i]);
            proof {
                lemma_records_dropped_trans(old(self), &wb, self, prefix_set(ids@, i as int), set![ids@[i as int]]);
                lemma_prefix_set_step(ids@, i as int);
                assert forall|x: u32| !ids@.subrange(0, i + 1).contains(x) implies (#[trigger] has_entity(
                    self.entities@,
                    x,
                ) == has_entity(old(self).entities@, x)) by {
                    assert(x != ids@[i as int]) by {
                        assert(ids@.subrange(0, i + 1)[i as int] == ids@[i as int]);
                    }
                    if ids@.subrange(0, i as int).contains(x) {
                        let j = choose|j: int| 0 <= j < i && ids@.subrange(0, i as int)[j] == x;
                        assert(ids@.subrange(0, i + 1)[j] == x);
                    }
                }
            }
            i = i + 1;
        }
        proof {
            assert(ids@.subrange(0, ids@.len() as int) =~= ids@);
            assert(prefix_set(ids@, i as int) == prefix_set(ids@, ids@.len() as int));
            assert forall|id: u32| ids@.contains(id) implies !#[trigger] has_entity(self.entities@, id) by {
                let t = choose|t: int| 0 <= t < ids@.len() && ids@[t] == id;
                assert(!has_entity(self.entities@, ids@[t]));
            }
        }
        if let Some(k) = self.find_player(player_id) {
            let ghost s = self.players@;
            self.players.remove(k);
            proof {
                assert forall|p: u32| p != player_id implies
                    (#[trigger] self.players@.contains(p) == s.contains(p)) by {
                    lemma_remove_keeps(s, k as int, p);
                }
                assert forall|t: int| 0 <= t < self.players.len() implies self.players@[t] != player_id by {
                    if t >= k {
                        assert(self.players@[t] == s[t + 1]);
                    }
                }
            }
        }
    }
}

} // verus!
