use arena_sim::collision::{Absorption, CollisionDetection};
use arena_sim::config::{Config, TARGET_FOOD_COUNT, PLAYER_MOVE_SPEED};
use arena_sim::entity::{BodyType, Entity, EntityType};
use arena_sim::game_math::{ceil_sqrt_u128, GameMath};
use arena_sim::input::clamp_horizontal;
use arena_sim::physics::{is_grounded, BodyCommand, BodySample};
use arena_sim::spawn::FoodSeed;
use arena_sim::vector::DbVector2;
use arena_sim::world::{TickPhase, World, WorldError};

fn entity(id: u32, x: i64, y: i64, mass: u32, kind: EntityType) -> Entity {
    Entity {
        entity_id: id,
        position: DbVector2::new(x, y),
        velocity: DbVector2::zero(),
        mass,
        entity_type: kind,
    }
}

fn world() -> World {
    World::new(Config::new(1000))
}

#[test]
fn ceil_sqrt_values() {
    assert_eq!(ceil_sqrt_u128(0), 0);
    assert_eq!(ceil_sqrt_u128(1), 1);
    assert_eq!(ceil_sqrt_u128(15), 4);
    assert_eq!(ceil_sqrt_u128(16), 4);
    assert_eq!(ceil_sqrt_u128(17), 5);
    assert_eq!(ceil_sqrt_u128(u128::MAX), 1u128 << 64);
}

#[test]
fn radius_from_mass() {
    assert_eq!(GameMath::mass_to_radius(15), 3873);
    assert_eq!(GameMath::mass_to_radius(100), 10000);
    assert_eq!(GameMath::mass_to_radius(0), 0);
    assert_eq!(GameMath::mass_to_max_move_speed(42), PLAYER_MOVE_SPEED);
}

#[test]
fn clamping_keeps_radius_inside() {
    let cfg = Config::new(1000);
    assert_eq!(GameMath::clamp_to_world(-5, 100, &cfg), 10000);
    assert_eq!(GameMath::clamp_to_world(2_000_000, 100, &cfg), 990000);
    assert_eq!(GameMath::clamp_to_world(500_000, 100, &cfg), 500_000);
    let tiny = Config::new(1);
    assert_eq!(GameMath::clamp_to_world(0, 2, &tiny), 500);
}

#[test]
fn vector_magnitude_and_normalization() {
    let v = DbVector2::new(3000, 4000);
    assert_eq!(v.sqr_magnitude(), 25_000_000);
    assert_eq!(v.magnitude(), 5000);
    assert_eq!(v.normalized(), DbVector2::new(600, 800));
    assert_eq!(DbVector2::new(-3000, 0).normalized(), DbVector2::new(-1000, 0));
    assert_eq!(DbVector2::zero().normalized(), DbVector2::zero());
    let n = DbVector2::new(1, 1).normalized();
    assert!(n.x * n.x + n.y * n.y <= 1_000_000);
    assert_eq!(n, DbVector2::new(706, 706));
    assert_eq!(DbVector2::new(2, -1).normalized(), DbVector2::new(894, -447));
    let big = DbVector2::new(i64::MIN, i64::MAX).normalized();
    assert!((big.x as i128) * (big.x as i128) + (big.y as i128) * (big.y as i128) <= 1_000_000);
}

#[test]
fn overlap_uses_larger_radius() {
    let a = entity(1, 0, 0, 100, EntityType::Player);
    let b = entity(2, 10_000, 0, 1, EntityType::Food);
    let c = entity(3, 10_001, 0, 1, EntityType::Food);
    assert!(CollisionDetection::is_overlapping(&a, &b));
    assert!(!CollisionDetection::is_overlapping(&a, &c));
    assert!(CollisionDetection::is_overlapping(&b, &a));
}

#[test]
fn elimination_threshold() {
    assert!(CollisionDetection::can_eliminate(100, 80));
    assert!(!CollisionDetection::can_eliminate(100, 86));
    assert!(!CollisionDetection::can_eliminate(50, 50));
    assert!(!CollisionDetection::can_eliminate(100, 85));
    let a = entity(1, 0, 0, 100, EntityType::Circle);
    let b = entity(2, 0, 0, 80, EntityType::Circle);
    let c = entity(3, 0, 0, 86, EntityType::Circle);
    let same = entity(4, 0, 0, 100, EntityType::Circle);
    assert_eq!(
        CollisionDetection::pair_absorption(&a, &b, Some(1), Some(2)),
        Some(Absorption { predator: 1, prey: 2, prey_mass: 80 })
    );
    assert_eq!(CollisionDetection::pair_absorption(&a, &c, Some(1), Some(2)), None);
    assert_eq!(CollisionDetection::pair_absorption(&a, &same, Some(1), Some(2)), None);
    assert_eq!(CollisionDetection::pair_absorption(&a, &b, Some(7), Some(7)), None);
}

#[test]
fn food_is_eaten_by_non_food() {
    let p = entity(1, 0, 0, 10, EntityType::Player);
    let f = entity(2, 100, 0, 3, EntityType::Food);
    let g = entity(3, 100, 0, 3, EntityType::Food);
    assert_eq!(
        CollisionDetection::pair_absorption(&f, &p, None, Some(1)),
        Some(Absorption { predator: 1, prey: 2, prey_mass: 3 })
    );
    assert_eq!(CollisionDetection::pair_absorption(&f, &g, None, None), None);
}

#[test]
fn resolver_uses_snapshot_and_consumes_once() {
    // 1 eats both foods; food 3 goes to the first predator in scan order
    let snapshot = vec![
        entity(1, 0, 0, 100, EntityType::Circle),
        entity(2, 0, 0, 1, EntityType::Food),
        entity(3, 0, 0, 1, EntityType::Food),
        entity(4, 0, 0, 10, EntityType::Circle),
    ];
    let owners = vec![Some(1), None, None, Some(1)];
    let r = CollisionDetection::resolve_collisions(&snapshot, &owners);
    assert_eq!(
        r,
        vec![
            Absorption { predator: 1, prey: 2, prey_mass: 1 },
            Absorption { predator: 1, prey: 3, prey_mass: 1 },
        ]
    );
}

#[test]
fn resolver_eats_every_overlapping_food_in_any_order() {
    let player = entity(1, 0, 0, 100, EntityType::Circle);
    let f1 = entity(2, 1, 0, 1, EntityType::Food);
    let f2 = entity(3, 2, 0, 1, EntityType::Food);
    let owners = vec![Some(1), None, None];
    let a = CollisionDetection::resolve_collisions(&vec![player, f1, f2], &owners);
    let b = CollisionDetection::resolve_collisions(&vec![player, f2, f1], &owners);
    assert_eq!(a.len(), 2);
    assert_eq!(b.len(), 2);
    assert!(a.iter().all(|e| e.predator == 1));
    assert!(b.iter().any(|e| e.prey == 2) && b.iter().any(|e| e.prey == 3));
}

#[test]
fn consumed_entity_absorbs_nothing() {
    // 3 (mass 100) eats 2 (mass 50) first; 2 then cannot eat food 4
    let snapshot = vec![
        entity(2, 0, 0, 50, EntityType::Circle),
        entity(3, 0, 0, 100, EntityType::Circle),
        entity(4, 0, 0, 1, EntityType::Food),
    ];
    let owners = vec![Some(1), Some(2), None];
    let r = CollisionDetection::resolve_collisions(&snapshot, &owners);
    assert_eq!(
        r,
        vec![
            Absorption { predator: 3, prey: 2, prey_mass: 50 },
            Absorption { predator: 3, prey: 4, prey_mass: 1 },
        ]
    );
}

#[test]
fn movement_tick_eats_several_foods() {
    let mut w = world();
    w.add_player(1);
    let c = w.spawn_circle_at(1, 100, DbVector2::new(500_000, 500_000), 0, 0).unwrap();
    let seeds = vec![
        FoodSeed { position: DbVector2::new(501_000, 500_000), mass: 2 },
        FoodSeed { position: DbVector2::new(499_000, 500_000), mass: 3 },
    ];
    assert_eq!(w.spawn_food_tick(&seeds), 2);
    let evs = w.movement_tick();
    assert_eq!(evs.len(), 2);
    assert_eq!(w.get(c.entity_id).unwrap().mass, 105);
    assert_eq!(w.foods.len(), 0);
    assert_eq!(w.entities.len(), 1);
}

#[test]
fn absorption_conserves_mass() {
    let mut w = world();
    let p = w.create(DbVector2::new(500_000, 500_000), 20, EntityType::Player).unwrap();
    let f = w.create(DbVector2::new(500_000, 500_000), 3, EntityType::Food).unwrap();
    assert!(w.absorb(p, f));
    assert_eq!(w.get(p).unwrap().mass, 23);
    assert!(w.get(f).is_none());
    assert!(!w.absorb(p, f));
    assert!(!w.absorb(p, p));
}

#[test]
fn create_clamps_and_rejects() {
    let mut w = world();
    assert_eq!(w.create(DbVector2::new(0, 0), 0, EntityType::Food), Err(WorldError::ZeroMass));
    let id = w.create(DbVector2::new(-100, 5_000_000), 100, EntityType::Food).unwrap();
    let e = w.get(id).unwrap();
    assert_eq!(e.position, DbVector2::new(10000, 990000));
    assert_eq!(e.velocity, DbVector2::zero());
    let id2 = w.create(DbVector2::new(1, 1), 1, EntityType::Food).unwrap();
    assert_ne!(id, id2);
}

#[test]
fn delete_removes_attachments() {
    let mut w = world();
    w.add_player(7);
    let e = w.spawn_player_at(7, 15, DbVector2::new(100_000, 100_000), 55).unwrap();
    assert_eq!(w.controllers.len(), 1);
    assert_eq!(w.bodies.len(), 1);
    assert!(w.delete(e.entity_id));
    assert!(w.get(e.entity_id).is_none());
    assert_eq!(w.controllers.len(), 0);
    assert_eq!(w.bodies.len(), 0);
    assert!(!w.delete(e.entity_id));
}

#[test]
fn body_mapping_is_one_to_one() {
    let mut w = world();
    let a = w.create(DbVector2::new(1000, 1000), 5, EntityType::Player).unwrap();
    let b = w.create(DbVector2::new(1000, 1000), 5, EntityType::Player).unwrap();
    assert_eq!(w.create_body(a, 9, BodyType::Dynamic), Ok(()));
    assert_eq!(w.create_body(a, 10, BodyType::Dynamic), Err(WorldError::EntityAlreadyMapped));
    assert_eq!(w.create_body(b, 9, BodyType::Dynamic), Err(WorldError::HandleAlreadyMapped));
    assert_eq!(w.create_body(999, 11, BodyType::Dynamic), Err(WorldError::UnknownEntity));
    assert_eq!(w.create_body(b, 11, BodyType::Static), Ok(()));
    assert_eq!(w.bodies.len(), 2);
}

#[test]
fn spawn_player_records() {
    let mut w = world();
    w.add_player(3);
    let e = w.spawn_player_at(3, 15, DbVector2::new(100_000, 100_000), 1).unwrap();
    assert_eq!(e.entity_type, EntityType::Player);
    assert_eq!(e.mass, 15);
    assert_eq!(w.controllers[0].can_jump, false);
    assert_eq!(w.inputs.len(), 1);
    assert_eq!(w.inputs[0].input_sequence, 0);
    assert_eq!(
        w.spawn_player_at(3, 15, DbVector2::new(0, 0), 1),
        Err(WorldError::HandleAlreadyMapped)
    );
    assert_eq!(w.spawn_player_at(3, 0, DbVector2::new(0, 0), 2), Err(WorldError::ZeroMass));
    let e2 = w.spawn_player_at(3, 15, DbVector2::new(0, 0), 2).unwrap();
    assert_eq!(e2.position, DbVector2::new(3873, 3873));
    assert_eq!(w.inputs.len(), 1);
}

#[test]
fn food_spawner_converges_to_target() {
    let mut w = world();
    let seeds: Vec<FoodSeed> = (0..700)
        .map(|i| FoodSeed { position: DbVector2::new(i * 1000, i * 500), mass: (i % 7) as u32 })
        .collect();
    assert_eq!(w.spawn_food_tick(&seeds), 0);
    assert_eq!(w.foods.len(), 0);
    w.add_player(1);
    assert_eq!(w.spawn_food_tick(&seeds[..100].to_vec()), 100);
    assert_eq!(w.foods.len(), 100);
    assert_eq!(w.spawn_food_tick(&seeds), (TARGET_FOOD_COUNT - 100) as usize);
    assert_eq!(w.foods.len() as u64, TARGET_FOOD_COUNT);
    assert_eq!(w.spawn_food_tick(&seeds), 0);
    assert_eq!(w.foods.len() as u64, TARGET_FOOD_COUNT);
    for e in w.entities.iter() {
        assert!(e.mass >= 2 && e.mass <= 4);
        assert_eq!(e.entity_type, EntityType::Food);
    }
}

#[test]
fn horizontal_input_is_clamped() {
    assert_eq!(clamp_horizontal(5000), 1000);
    assert_eq!(clamp_horizontal(-5000), -1000);
    assert_eq!(clamp_horizontal(250), 250);
    let mut w = world();
    assert!(!w.update_player_input(4, 5000, false));
    assert_eq!(w.inputs.len(), 0);
    w.add_player(4);
    assert!(w.update_player_input(4, 5000, true));
    assert_eq!(w.inputs[0].horizontal_axis, 1000);
    assert!(w.inputs[0].jump_pressed);
    assert_eq!(w.inputs[0].input_sequence, 1);
    assert!(w.update_player_input(4, -20, false));
    assert_eq!(w.inputs[0].horizontal_axis, -20);
    assert_eq!(w.inputs[0].input_sequence, 2);
}

#[test]
fn direction_input_is_normalized() {
    let mut w = world();
    w.add_player(4);
    w.spawn_circle_at(4, 10, DbVector2::new(500_000, 500_000), 2000, 0).unwrap();
    assert!(w.update_player_direction(4, DbVector2::new(3000, 0), false));
    assert_eq!(w.inputs[0].direction, DbVector2::new(1000, 0));
    assert_eq!(w.circles[0].direction, DbVector2::new(1000, 0));
    assert!(w.update_player_direction(4, DbVector2::new(0, -3000), true));
    assert_eq!(w.inputs[0].direction, DbVector2::new(0, -1000));
    assert_eq!(w.inputs[0].input_sequence, 2);
}

#[test]
fn ground_detection_threshold() {
    assert!(is_grounded(0));
    assert!(is_grounded(100));
    assert!(is_grounded(-100));
    assert!(!is_grounded(101));
    assert!(!is_grounded(-5000));
}

fn run_tick(w: &mut World, samples: &Vec<BodySample>) -> Vec<BodyCommand> {
    let cmds = w.apply_player_inputs();
    w.record_step();
    w.sync_physics(samples);
    w.update_ground_detection();
    cmds
}

#[test]
fn physics_tick_jumps_once() {
    let mut w = world();
    w.add_player(1);
    let e = w.spawn_player_at(1, 15, DbVector2::new(100_000, 100_000), 77).unwrap();
    let resting = vec![BodySample {
        handle: 77,
        position: DbVector2::new(200_000, 50_000),
        velocity: DbVector2::new(0, 0),
    }];
    assert_eq!(run_tick(&mut w, &resting), vec![]);
    assert_eq!(w.phase, TickPhase::Idle);
    assert_eq!(w.get(e.entity_id).unwrap().position, DbVector2::new(200_000, 50_000));
    assert!(w.bodies[0].on_ground);
    assert!(w.controllers[0].can_jump);

    let jump = w.apply_jump_impulse(e.entity_id, 8000);
    assert_eq!(
        jump,
        Some(BodyCommand::Jump { entity_id: e.entity_id, handle: 77, jump_force: 8000 })
    );
    assert!(!w.bodies[0].on_ground);
    assert_eq!(w.apply_jump_impulse(e.entity_id, 8000), None);
    // regrounded by the next tick's ground detection
    run_tick(&mut w, &resting);
    assert_eq!(
        w.apply_jump_impulse(e.entity_id, 8000),
        Some(BodyCommand::Jump { entity_id: e.entity_id, handle: 77, jump_force: 8000 })
    );
}

#[test]
fn jump_fires_on_grounded_body_alone() {
    let mut w = world();
    let a = w.create(DbVector2::new(10_000, 10_000), 5, EntityType::Player).unwrap();
    assert_eq!(w.apply_jump_impulse(a, 3000), None);
    w.create_body(a, 12, BodyType::Dynamic).unwrap();
    assert_eq!(w.apply_jump_impulse(a, 3000), None);
    let resting = vec![BodySample { handle: 12, position: DbVector2::new(10_000, 10_000), velocity: DbVector2::zero() }];
    run_tick(&mut w, &resting);
    assert!(w.bodies[0].on_ground);
    assert_eq!(
        w.apply_jump_impulse(a, 3000),
        Some(BodyCommand::Jump { entity_id: a, handle: 12, jump_force: 3000 })
    );
    assert_eq!(w.apply_jump_impulse(a, 3000), None);
}

#[test]
fn physics_tick_applies_inputs() {
    let mut w = world();
    w.add_player(1);
    let e = w.spawn_player_at(1, 15, DbVector2::new(100_000, 100_000), 5).unwrap();
    let resting = vec![BodySample { handle: 5, position: DbVector2::new(1, 1), velocity: DbVector2::zero() }];
    run_tick(&mut w, &resting);
    assert_eq!(w.get(e.entity_id).unwrap().position, DbVector2::new(3873, 3873));
    assert!(w.update_player_input(1, 700, true));
    let rising = vec![BodySample {
        handle: 5,
        position: DbVector2::new(100_000, 100_000),
        velocity: DbVector2::new(3500, 8000),
    }];
    let cmds = run_tick(&mut w, &rising);
    assert_eq!(
        cmds,
        vec![
            BodyCommand::Move { entity_id: e.entity_id, handle: 5, axis: 700, move_speed: 5000 },
            BodyCommand::Jump { entity_id: e.entity_id, handle: 5, jump_force: 8000 },
        ]
    );
    assert!(!w.bodies[0].on_ground);
    assert!(!w.controllers[0].can_jump);
    assert_eq!(w.get(e.entity_id).unwrap().velocity, DbVector2::new(3500, 8000));
    // airborne: no jump, dead-zone input gives no move
    assert!(w.update_player_input(1, 5, true));
    assert_eq!(run_tick(&mut w, &rising), vec![]);
}

#[test]
fn movement_force_needs_dynamic_body() {
    let mut w = world();
    let a = w.create(DbVector2::new(1000, 1000), 5, EntityType::Player).unwrap();
    assert_eq!(w.apply_movement_force(a, 1000, 5000), None);
    w.create_body(a, 3, BodyType::Static).unwrap();
    assert_eq!(w.apply_movement_force(a, 1000, 5000), None);
    let b = w.create(DbVector2::new(1000, 1000), 5, EntityType::Player).unwrap();
    w.create_body(b, 4, BodyType::Dynamic).unwrap();
    assert_eq!(
        w.apply_movement_force(b, -1000, 5000),
        Some(BodyCommand::Move { entity_id: b, handle: 4, axis: -1000, move_speed: 5000 })
    );
}

#[test]
fn removing_player_deletes_its_entities() {
    let mut w = world();
    w.add_player(1);
    w.add_player(2);
    let a = w.spawn_player_at(1, 15, DbVector2::new(100_000, 100_000), 1).unwrap();
    let b = w.spawn_circle_at(1, 10, DbVector2::new(100_000, 100_000), 100, 0).unwrap();
    let c = w.spawn_player_at(2, 15, DbVector2::new(100_000, 100_000), 2).unwrap();
    assert_eq!(w.entities_of_player(1), vec![a.entity_id, b.entity_id]);
    w.remove_player(1);
    assert!(!w.has_player(1));
    assert!(w.has_player(2));
    assert!(w.get(a.entity_id).is_none());
    assert!(w.get(b.entity_id).is_none());
    assert!(w.get(c.entity_id).is_some());
    assert_eq!(w.circles.len(), 0);
    assert_eq!(w.controllers.len(), 1);
}

#[test]
fn movement_tick_moves_and_absorbs() {
    let mut w = world();
    w.add_player(1);
    let c = w.spawn_circle_at(1, 10, DbVector2::new(500_000, 500_000), 2000, 0).unwrap();
    let f = w.create(DbVector2::new(502_100, 500_000), 1, EntityType::Food).unwrap();
    let far = w.create(DbVector2::new(900_000, 900_000), 1, EntityType::Food).unwrap();
    assert!(w.update_player_direction(1, DbVector2::new(5, 0), false));
    let evs = w.movement_tick();
    assert_eq!(evs, vec![Absorption { predator: c.entity_id, prey: f, prey_mass: 1 }]);
    let moved = w.get(c.entity_id).unwrap();
    assert_eq!(moved.position, DbVector2::new(502_000, 500_000));
    assert_eq!(moved.mass, 11);
    assert!(w.get(f).is_none());
    assert!(w.get(far).is_some());
}

#[test]
fn movement_tick_keeps_circles_inside() {
    let mut w = world();
    w.add_player(1);
    let c = w.spawn_circle_at(1, 100, DbVector2::new(11_000, 500_000), 5000, 0).unwrap();
    assert!(w.update_player_direction(1, DbVector2::new(-1, 0), false));
    w.movement_tick();
    assert_eq!(w.get(c.entity_id).unwrap().position, DbVector2::new(10_000, 500_000));
}

#[test]
fn equal_circles_of_different_players_coexist() {
    let mut w = world();
    w.add_player(1);
    w.add_player(2);
    let a = w.spawn_circle_at(1, 50, DbVector2::new(500_000, 500_000), 0, 0).unwrap();
    let b = w.spawn_circle_at(2, 50, DbVector2::new(500_000, 500_000), 0, 0).unwrap();
    assert_eq!(w.movement_tick(), vec![]);
    assert!(w.get(a.entity_id).is_some());
    assert!(w.get(b.entity_id).is_some());
    let c = w.spawn_circle_at(2, 40, DbVector2::new(500_000, 500_000), 0, 0).unwrap();
    let evs = w.movement_tick();
    assert_eq!(evs, vec![Absorption { predator: a.entity_id, prey: c.entity_id, prey_mass: 40 }]);
    assert_eq!(w.get(a.entity_id).unwrap().mass, 90);
}

#[test]
fn query_state_needs_a_body() {
    let mut w = world();
    let a = w.create(DbVector2::new(20_000, 30_000), 5, EntityType::Player).unwrap();
    assert_eq!(w.query_state(a), None);
    w.create_body(a, 8, BodyType::Dynamic).unwrap();
    assert_eq!(w.query_state(a), Some((DbVector2::new(20_000, 30_000), DbVector2::zero())));
    assert!(w.update_position(a, DbVector2::new(-1, 2_000_000)));
    assert_eq!(w.query_state(a), Some((DbVector2::new(2237, 997_763), DbVector2::zero())));
    assert_eq!(w.query_state(999), None);
    assert!(!w.update_position(999, DbVector2::zero()));
}

#[test]
fn absorption_reclamps_grown_predator() {
    let mut w = world();
    let p = w.create(DbVector2::new(0, 500_000), 1, EntityType::Player).unwrap();
    assert_eq!(w.get(p).unwrap().position, DbVector2::new(1000, 500_000));
    let f = w.create(DbVector2::new(6000, 500_000), 99, EntityType::Food).unwrap();
    assert_eq!(w.get(f).unwrap().position, DbVector2::new(9950, 500_000));
    assert!(w.absorb(p, f));
    let grown = w.get(p).unwrap();
    assert_eq!(grown.mass, 100);
    assert_eq!(grown.position, DbVector2::new(10_000, 500_000));
}

#[test]
fn movement_tick_drops_prey_records() {
    let mut w = world();
    w.add_player(1);
    w.add_player(2);
    let big = w.spawn_circle_at(1, 100, DbVector2::new(500_000, 500_000), 0, 0).unwrap();
    let small = w.spawn_circle_at(2, 10, DbVector2::new(500_000, 500_000), 0, 0).unwrap();
    let seeds = vec![FoodSeed { position: DbVector2::new(100_000, 100_000), mass: 3 }];
    assert_eq!(w.spawn_food_tick(&seeds), 1);
    let evs = w.movement_tick();
    assert_eq!(evs, vec![Absorption { predator: big.entity_id, prey: small.entity_id, prey_mass: 10 }]);
    assert_eq!(w.circles.len(), 1);
    assert_eq!(w.circles[0].entity_id, big.entity_id);
    assert_eq!(w.foods.len(), 1);
    assert_eq!(w.get(big.entity_id).unwrap().mass, 110);
}

#[test]
fn spawn_point_keeps_margin() {
    let w = world();
    assert_eq!(w.spawn_point(5_000), DbVector2::new(100_000, 100_000));
    assert_eq!(w.spawn_point(450_000), DbVector2::new(450_000, 100_000));
    assert_eq!(w.spawn_point(999_000), DbVector2::new(900_000, 100_000));
    let narrow = World::new(Config::new(150));
    assert_eq!(narrow.spawn_point(5), DbVector2::new(75_000, 100_000));
}
