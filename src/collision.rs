use vstd::prelude::*;
use crate::config::{MILLI, SAFE_RATIO_NUM, SAFE_RATIO_DEN};
use crate::entity::{Entity, EntityType, in_bounds};
use crate::world::entity_ids_unique;
use crate::vector::sqr_len;

verus! {

/// Two entities overlap when the distance between their centres is at most
/// the larger radius (radius = square root of mass, in world units).
/// Squared, in milli-units: `distance^2 <= max(mass) * MILLI^2`.
pub open spec fn overlaps(a: Entity, b: Entity) -> bool {
    let dx = a.position.x - b.position.x;
    let dy = a.position.y - b.position.y;
    let m = if a.mass >= b.mass { a.mass as int } else { b.mass as int };
    sqr_len(dx, dy) <= m * MILLI * MILLI
}

/// `smaller / larger` is below the safe ratio, so the larger eliminates the smaller.
pub open spec fn below_safe_ratio(larger: int, smaller: int) -> bool {
    smaller * SAFE_RATIO_DEN < larger * SAFE_RATIO_NUM
}

/// One absorption: `prey` is removed and its mass goes to `predator`.
#[derive(Clone, Copy, Debug, PartialEq, Eq, Structural)]
pub struct Absorption {
    pub predator: u32,
    pub prey: u32,
    pub prey_mass: u32,
}

pub open spec fn eats(predator: Entity, prey: Entity) -> Absorption {
    Absorption { predator: predator.entity_id, prey: prey.entity_id, prey_mass: prey.mass }
}

/// The absorption, if any, that a pair of overlapping-or-not entities with
/// owners `oa` and `ob` gives rise to. Food is eaten by any non-food entity;
/// two owned entities of different owners follow the mass-ratio rule.
pub open spec fn absorption(a: Entity, b: Entity, oa: Option<u32>, ob: Option<u32>) -> Option<Absorption> {
    if !overlaps(a, b) {
        None
    } else if a.entity_type == EntityType::Food && b.entity_type != EntityType::Food {
        Some(eats(b, a))
    } else if b.entity_type == EntityType::Food && a.entity_type != EntityType::Food {
        Some(eats(a, b))
    } else if a.entity_type == EntityType::Food || b.entity_type == EntityType::Food {
        None
    } else if oa.is_some() && ob.is_some() && oa != ob {
        if below_safe_ratio(a.mass as int, b.mass as int) {
            Some(eats(a, b))
        } else if below_safe_ratio(b.mass as int, a.mass as int) {
            Some(eats(b, a))
        } else {
            None
        }
    } else {
        None
    }
}

/// Total mass that the entity `id` gains from the absorptions `evs`.
#[verifier::opaque]
pub open spec fn gain(evs: Seq<Absorption>, id: u32) -> int
    decreases evs.len(),
{
    if evs.len() == 0 {
        0
    } else {
        gain(evs.drop_last(), id) + if evs.last().predator == id {
            evs.last().prey_mass as int
        } else {
            0
        }
    }
}

/// The batch of absorptions of one tick, found by scanning the pairs `(i, j)`,
/// `i < j`, of the snapshot `s` in order from `(i, j)` on. Every decision
/// reads the snapshot alone. `eaten` marks the entities already consumed
/// this tick and `ate` those that already absorbed: a consumed entity takes
/// part in nothing more, one that absorbed is not consumed, and a predator
/// may absorb several prey as long as its total mass fits.
pub open spec fn resolve_from(
    s: Seq<Entity>,
    owners: Seq<Option<u32>>,
    i: int,
    j: int,
    eaten: Seq<bool>,
    ate: Seq<bool>,
    evs: Seq<Absorption>,
) -> Seq<Absorption>
    decreases s.len() - i, s.len() - j,
{
    if i < 0 || i >= s.len() {
        evs
    } else if j >= s.len() || j <= i {
        resolve_from(s, owners, i + 1, i + 2, eaten, ate, evs)
    } else if eaten[i] || eaten[j] {
        resolve_from(s, owners, i, j + 1, eaten, ate, evs)
    } else {
        match absorption(s[i], s[j], owners[i], owners[j]) {
            Some(e) => {
                let p = if e.predator == s[i].entity_id { i } else { j };
                let q = if e.predator == s[i].entity_id { j } else { i };
                if ate[q] || s[p].mass + gain(evs, s[p].entity_id) + s[q].mass > u32::MAX {
                    resolve_from(s, owners, i, j + 1, eaten, ate, evs)
                } else {
                    resolve_from(s, owners, i, j + 1, eaten.update(q, true), ate.update(p, true), evs.push(e))
                }
            },
            None => resolve_from(s, owners, i, j + 1, eaten, ate, evs),
        }
    }
}

/// The absorptions of one tick over the snapshot `s`.
pub open spec fn resolve(s: Seq<Entity>, owners: Seq<Option<u32>>) -> Seq<Absorption> {
    let none = Seq::new(s.len(), |k: int| false);
    resolve_from(s, owners, 0, 1, none, none, Seq::empty())
}

/// Two player entities of equal mass never eliminate each other: the ratio
/// is one, which is not below the safe ratio.
pub proof fn lemma_equal_mass_never_eliminates(a: Entity, b: Entity, oa: Option<u32>, ob: Option<u32>)
    requires
        a.mass == b.mass,
        a.entity_type != EntityType::Food,
        b.entity_type != EntityType::Food,
    ensures
        absorption(a, b, oa, ob).is_none(),
{
}

/// Each prey of a batch is consumed once, by another entity, and a
/// consumed entity absorbs nothing in the batch.
pub open spec fn well_formed_batch(evs: Seq<Absorption>) -> bool {
    &&& forall|a: int| 0 <= a < evs.len() ==> #[trigger] evs[a].predator != evs[a].prey
    &&& forall|a: int, b: int| 0 <= a < b < evs.len() ==> (#[trigger] evs[a]).prey != (#[trigger] evs[b]).prey
    &&& forall|a: int, b: int|
        0 <= a < evs.len() && 0 <= b < evs.len() ==> (#[trigger] evs[a]).prey != (#[trigger] evs[b]).predator
}

/// The absorption is one entity of the snapshot eating another.
pub open spec fn from_snapshot(s: Seq<Entity>, e: Absorption) -> bool {
    exists|i: int, j: int| 0 <= i < s.len() && 0 <= j < s.len() && i != j && e == #[trigger] eats(s[i], s[j])
}

/// What holds at every point of the scan.
pub open spec fn scan_inv(s: Seq<Entity>, eaten: Seq<bool>, ate: Seq<bool>, evs: Seq<Absorption>) -> bool {
    &&& eaten.len() == s.len()
    &&& ate.len() == s.len()
    &&& well_formed_batch(evs)
    &&& forall|a: int| 0 <= a < evs.len() ==> from_snapshot(s, #[trigger] evs[a])
    &&& forall|a: int, t: int|
        0 <= a < evs.len() && 0 <= t < s.len() && (#[trigger] s[t]).entity_id == (#[trigger] evs[a]).prey ==> eaten[t]
    &&& forall|a: int, t: int|
        0 <= a < evs.len() && 0 <= t < s.len() && (#[trigger] s[t]).entity_id == (#[trigger] evs[a]).predator
            ==> ate[t]
    &&& forall|t: int| 0 <= t < s.len() ==> !(#[trigger] eaten[t] && ate[t])
    &&& forall|t: int| 0 <= t < s.len() ==> (#[trigger] s[t]).mass + gain(evs, s[t].entity_id) <= u32::MAX
}

/// Gains only grow along a batch and never go below zero.
pub proof fn lemma_gain_prefix(evs: Seq<Absorption>, n: int, id: u32)
    requires
        0 <= n <= evs.len(),
    ensures
        0 <= gain(evs.subrange(0, n), id) <= gain(evs, id),
    decreases evs.len(),
{
    reveal(gain);
    if n == evs.len() {
        assert(evs.subrange(0, n) =~= evs);
        lemma_gain_nonneg(evs, id);
    } else {
        assert(evs.drop_last().subrange(0, n) =~= evs.subrange(0, n));
        lemma_gain_prefix(evs.drop_last(), n, id);
    }
}

/// One more absorption adds its prey's mass to its predator's gain alone.
pub proof fn lemma_gain_push(evs: Seq<Absorption>, e: Absorption, id: u32)
    ensures
        gain(evs.push(e), id) == gain(evs, id) + if e.predator == id {
            e.prey_mass as int
        } else {
            0
        },
        gain(Seq::<Absorption>::empty(), id) == 0,
{
    reveal(gain);
    assert(evs.push(e).drop_last() =~= evs);
}

pub proof fn lemma_gain_nonneg(evs: Seq<Absorption>, id: u32)
    ensures
        gain(evs, id) >= 0,
    decreases evs.len(),
{
    reveal(gain);
    if evs.len() > 0 {
        lemma_gain_nonneg(evs.drop_last(), id);
    }
}

proof fn lemma_scan_inv(
    s: Seq<Entity>,
    owners: Seq<Option<u32>>,
    i: int,
    j: int,
    eaten: Seq<bool>,
    ate: Seq<bool>,
    evs: Seq<Absorption>,
)
    requires
        entity_ids_unique(s),
        owners.len() == s.len(),
        scan_inv(s, eaten, ate, evs),
    ensures
        well_formed_batch(resolve_from(s, owners, i, j, eaten, ate, evs)),
        forall|a: int|
            0 <= a < resolve_from(s, owners, i, j, eaten, ate, evs).len() ==> from_snapshot(
                s,
                #[trigger] resolve_from(s, owners, i, j, eaten, ate, evs)[a],
            ),
        forall|t: int| 0 <= t < s.len() ==> (#[trigger] s[t]).mass + gain(
            resolve_from(s, owners, i, j, eaten, ate, evs),
            s[t].entity_id,
        ) <= u32::MAX,
    decreases s.len() - i, s.len() - j,
{
    if i < 0 || i >= s.len() {
    } else if j >= s.len() || j <= i {
        lemma_scan_inv(s, owners, i + 1, i + 2, eaten, ate, evs);
    } else if eaten[i] || eaten[j] {
        lemma_scan_inv(s, owners, i, j + 1, eaten, ate, evs);
    } else {
        match absorption(s[i], s[j], owners[i], owners[j]) {
            Some(e) => {
                let p = if e.predator == s[i].entity_id { i } else { j };
                let q = if e.predator == s[i].entity_id { j } else { i };
                if ate[q] || s[p].mass + gain(evs, s[p].entity_id) + s[q].mass > u32::MAX {
                    lemma_scan_inv(s, owners, i, j + 1, eaten, ate, evs);
                } else {
                    let eaten2 = eaten.update(q, true);
                    let ate2 = ate.update(p, true);
                    let evs2 = evs.push(e);
                    assert(s[i].entity_id != s[j].entity_id);
                    assert(e == eats(s[p], s[q]));
                    assert(from_snapshot(s, e));
                    assert forall|a: int| 0 <= a < evs.len() implies {
                        &&& evs[a].prey != s[q].entity_id
                        &&& evs[a].predator != s[q].entity_id
                        &&& evs[a].prey != s[p].entity_id
                    } by {
                        if evs[a].prey == s[q].entity_id {
                            assert(eaten[q]);
                        }
                        if evs[a].predator == s[q].entity_id {
                            assert(ate[q]);
                        }
                        if evs[a].prey == s[p].entity_id {
                            assert(eaten[p]);
                        }
                    }
                    assert(well_formed_batch(evs2)) by {
                        assert forall|a: int| 0 <= a < evs2.len() implies #[trigger] evs2[a].predator != evs2[a].prey by {
                            if a < evs.len() {
                                assert(evs2[a] == evs[a]);
                            }
                        }
                        assert forall|a: int, b: int| 0 <= a < b < evs2.len() implies (#[trigger] evs2[a]).prey
                            != (#[trigger] evs2[b]).prey by {
                            assert(evs2[a] == evs[a]);
                            if b < evs.len() {
                                assert(evs2[b] == evs[b]);
                            }
                        }
                        assert forall|a: int, b: int| 0 <= a < evs2.len() && 0 <= b < evs2.len() implies (
                        #[trigger] evs2[a]).prey != (#[trigger] evs2[b]).predator by {
                            if a < evs.len() {
                                assert(evs2[a] == evs[a]);
                            }
                            if b < evs.len() {
                                assert(evs2[b] == evs[b]);
                            }
                        }
                    }
                    assert forall|a: int| 0 <= a < evs2.len() implies from_snapshot(s, #[trigger] evs2[a]) by {
                        if a < evs.len() {
                            assert(evs2[a] == evs[a]);
                        }
                    }
                    assert forall|a: int, t: int|
                        0 <= a < evs2.len() && 0 <= t < s.len() && (#[trigger] s[t]).entity_id
                            == (#[trigger] evs2[a]).prey implies eaten2[t] by {
                        if a < evs.len() {
                            assert(evs2[a] == evs[a]);
                        } else {
                            assert(t == q);
                        }
                    }
                    assert forall|a: int, t: int|
                        0 <= a < evs2.len() && 0 <= t < s.len() && (#[trigger] s[t]).entity_id
                            == (#[trigger] evs2[a]).predator implies ate2[t] by {
                        if a < evs.len() {
                            assert(evs2[a] == evs[a]);
                        } else {
                            assert(t == p);
                        }
                    }
                    assert forall|t: int| 0 <= t < s.len() implies (#[trigger] s[t]).mass + gain(
                        evs2,
                        s[t].entity_id,
                    ) <= u32::MAX by {
                        lemma_gain_push(evs, e, s[t].entity_id);
                        if t != p {
                            assert(s[t].entity_id != s[p].entity_id);
                        }
                    }
                    assert(scan_inv(s, eaten2, ate2, evs2));
                    lemma_scan_inv(s, owners, i, j + 1, eaten2, ate2, evs2);
                }
            },
            None => {
                lemma_scan_inv(s, owners, i, j + 1, eaten, ate, evs);
            },
        }
    }
}

/// Each prey of a tick's batch is consumed once, by an entity of the
/// snapshot that is not itself consumed, and every predator's total mass fits.
pub proof fn lemma_resolve_batch(s: Seq<Entity>, owners: Seq<Option<u32>>)
    requires
        entity_ids_unique(s),
        owners.len() == s.len(),
    ensures
        well_formed_batch(resolve(s, owners)),
        forall|a: int| 0 <= a < resolve(s, owners).len() ==> from_snapshot(s, #[trigger] resolve(s, owners)[a]),
        forall|t: int| 0 <= t < s.len() ==> (#[trigger] s[t]).mass + gain(resolve(s, owners), s[t].entity_id) <= u32::MAX,
{
    let none = Seq::new(s.len(), |k: int| false);
    assert forall|t: int| 0 <= t < s.len() implies (#[trigger] s[t]).mass + gain(Seq::empty(), s[t].entity_id)
        <= u32::MAX by {
        lemma_gain_push(Seq::empty(), Absorption { predator: 0, prey: 0, prey_mass: 0 }, s[t].entity_id);
    }
    lemma_scan_inv(s, owners, 0, 1, none, none, Seq::empty());
}

/// Overlap and elimination tests between entities.
pub struct CollisionDetection;

impl CollisionDetection {
    /// Whether the centres of `a` and `b` are at most the larger radius apart.
    pub fn is_overlapping(a: &Entity, b: &Entity) -> (r: bool)
        requires
            in_bounds(a.position),
            in_bounds(b.position),
        ensures
            r == overlaps(*a, *b),
    {
        let dx = a.position.x as i128 - b.position.x as i128;
        let dy = a.position.y as i128 - b.position.y as i128;
        assert(dx * dx <= 0x4000_0000_0000_0000_0000_0000_0000_0000 && dx * dx >= 0) by (nonlinear_arith)
            requires -0x8000_0000_0000_0000 <= dx <= 0x8000_0000_0000_0000;
        assert(dy * dy <= 0x4000_0000_0000_0000_0000_0000_0000_0000 && dy * dy >= 0) by (nonlinear_arith)
            requires -0x8000_0000_0000_0000 <= dy <= 0x8000_0000_0000_0000;
        let distance_sq: u128 = (dx * dx) as u128 + (dy * dy) as u128;
        let max_mass: u128 = if a.mass >= b.mass { a.mass as u128 } else { b.mass as u128 };
        distance_sq <= max_mass * 1_000_000
    }

    /// Whether an entity of mass `larger` eliminates one of mass `smaller`:
    /// `smaller / larger < 0.85`.
    pub fn can_eliminate(larger: u32, smaller: u32) -> (r: bool)
        ensures
            r == below_safe_ratio(larger as int, smaller as int),
    {
        (smaller as u64) * SAFE_RATIO_DEN < (larger as u64) * SAFE_RATIO_NUM
    }

    /// The absorption that the pair `(a, b)` gives rise to, if any.
    pub fn pair_absorption(a: &Entity, b: &Entity, oa: Option<u32>, ob: Option<u32>) -> (r: Option<Absorption>)
        requires
            in_bounds(a.position),
            in_bounds(b.position),
        ensures
            r == absorption(*a, *b, oa, ob),
    {
        if !Self::is_overlapping(a, b) {
            None
        } else if a.entity_type == EntityType::Food && b.entity_type != EntityType::Food {
            Some(Absorption { predator: b.entity_id, prey: a.entity_id, prey_mass: a.mass })
        } else if b.entity_type == EntityType::Food && a.entity_type != EntityType::Food {
            Some(Absorption { predator: a.entity_id, prey: b.entity_id, prey_mass: b.mass })
        } else if a.entity_type == EntityType::Food || b.entity_type == EntityType::Food {
            None
        } else if oa.is_some() && ob.is_some() && oa != ob {
            if Self::can_eliminate(a.mass, b.mass) {
                Some(Absorption { predator: a.entity_id, prey: b.entity_id, prey_mass: b.mass })
            } else if Self::can_eliminate(b.mass, a.mass) {
                Some(Absorption { predator: b.entity_id, prey: a.entity_id, prey_mass: a.mass })
            } else {
                None
            }
        } else {
            None
        }
    }

    /// Scans every unordered pair of the snapshot once, in order, and returns
    /// the tick's absorptions; nothing in the snapshot changes during the scan.
    pub fn resolve_collisions(snapshot: &Vec<Entity>, owners: &Vec<Option<u32>>) -> (r: Vec<Absorption>)
        requires
            owners.len() == snapshot.len(),
            entity_ids_unique(snapshot@),
            forall|k: int| 0 <= k < snapshot.len() ==> in_bounds(#[trigger] snapshot[k].position),
        ensures
            r@ == resolve(snapshot@, owners@),
    {
        let n = snapshot.len();
        let mut eaten: Vec<bool> = Vec::new();
        let mut ate: Vec<bool> = Vec::new();
        let mut gains: Vec<u64> = Vec::new();
        let mut k: usize = 0;
        while k < n
            invariant
                k <= n,
                eaten.len() == k,
                ate.len() == k,
                gains.len() == k,
                forall|t: int| 0 <= t < k ==> !eaten[t] && !ate[t] && gains[t] == 0,
            decreases n - k,
        {
            eaten.push(false);
            ate.push(false);
            gains.push(0);
            k = k + 1;
        }
        assert(eaten@ == Seq::new(n as nat, |t: int| false));
        assert(ate@ == Seq::new(n as nat, |t: int| false));
        let mut evs: Vec<Absorption> = Vec::new();
        proof {
            assert forall|t: int| 0 <= t < n implies #[trigger] gains@[t] == gain(evs@, snapshot@[t].entity_id) by {
                lemma_gain_push(evs@, Absorption { predator: 0, prey: 0, prey_mass: 0 }, snapshot@[t].entity_id);
            }
        }
        let mut i: usize = 0;
        while i < n
            invariant
                n == snapshot.len(),
                n == owners.len(),
                eaten.len() == n,
                ate.len() == n,
                gains.len() == n,
                i <= n,
                entity_ids_unique(snapshot@),
                forall|k: int| 0 <= k < snapshot.len() ==> in_bounds(#[trigger] snapshot[k].position),
                forall|t: int| 0 <= t < n ==> #[trigger] gains@[t] == gain(evs@, snapshot@[t].entity_id),
                resolve_from(snapshot@, owners@, i as int, i + 1, eaten@, ate@, evs@) == resolve(snapshot@, owners@),
            decreases n - i,
        {
            let mut j: usize = i + 1;
            while j < n
                invariant
                    n == snapshot.len(),
                    n == owners.len(),
                    eaten.len() == n,
                    ate.len() == n,
                    gains.len() == n,
                    i < n,
                    i < j <= n,
                    entity_ids_unique(snapshot@),
                    forall|k: int| 0 <= k < snapshot.len() ==> in_bounds(#[trigger] snapshot[k].position),
                    forall|t: int| 0 <= t < n ==> #[trigger] gains@[t] == gain(evs@, snapshot@[t].entity_id),
                    resolve_from(snapshot@, owners@, i as int, j as int, eaten@, ate@, evs@) == resolve(
                        snapshot@,
                        owners@,
                    ),
                decreases n - j,
            {
                {
                    if !eaten[i] && !eaten[j] {
                        match Self::pair_absorption(&snapshot[i], &snapshot[j], owners[i], owners[j]) {
                            Some(e) => {
                                let p: usize = if e.predator == snapshot[i].entity_id { i } else { j };
                                let q: usize = if e.predator == snapshot[i].entity_id { j } else { i };
                                if !ate[q] && gains[p] <= u32::MAX as u64 && (snapshot[p].mass as u64) + gains[p]
                                    + (snapshot[q].mass as u64) <= u32::MAX as u64 {
                                    let ghost before = evs@;
                                    evs.push(e);
                                    eaten.set(q, true);
                                    ate.set(p, true);
                                    let g = gains[p] + snapshot[q].mass as u64;
                                    gains.set(p, g);
                                    proof {
                                        assert(evs@ == before.push(e));
                                        assert forall|t: int| 0 <= t < n implies #[trigger] gains@[t] == gain(
                                            evs@,
                                            snapshot@[t].entity_id,
                                        ) by {
                                            lemma_gain_push(before, e, snapshot@[t].entity_id);
                                            if t != p {
                                                assert(snapshot@[t].entity_id != snapshot@[p as int].entity_id);
                                            }
                                        }
                                    }
                                } else {
                                    proof {
                                        lemma_gain_nonneg(evs@, snapshot@[p as int].entity_id);
                                    }
                                }
                            },
                            None => {},
                        }
                    }
                }
                j = j + 1;
            }
            i = i + 1;
        }
        evs
    }
}

} // verus!
