use traffic_control::controller::LightState;
use traffic_control::direction::{Direction, Route};
use traffic_control::geometry::UNITS_PER_PIXEL;
use traffic_control::simulation::{choose_approach, key_direction, Simulation, SpawnKey};

const U: i64 = UNITS_PER_PIXEL;

#[test]
fn new_simulation_is_empty() {
    let sim = Simulation::new();
    assert_eq!(sim.spawned(), 0);
    assert_eq!(sim.completed_crossings(), 0);
    assert!(sim.vehicles().is_empty());
    assert_eq!(sim.controller().state, LightState::Green);
}

#[test]
fn spawning_is_refused_while_the_entry_is_occupied() {
    let mut sim = Simulation::new();
    assert!(sim.try_spawn(Direction::North, Route::Straight));
    assert!(!sim.try_spawn(Direction::North, Route::Left));
    assert!(sim.try_spawn(Direction::South, Route::Left));
    assert_eq!(sim.spawned(), 2);
    let v = &sim.vehicles()[0];
    assert_eq!(v.id, 0);
    assert_eq!(v.current_waypoint, 1);
    assert_eq!((v.x, v.y), (370 * U, -50 * U));
    assert_eq!(sim.vehicles()[1].id, 1);
    for _ in 0..22 {
        sim.step(16_667);
    }
    assert!(!sim.try_spawn(Direction::North, Route::Right));
    sim.step(16_667);
    assert!(sim.try_spawn(Direction::North, Route::Right));
    assert_eq!(sim.vehicles()[2].id, 2);
}

#[test]
fn a_lone_vehicle_crosses_and_is_counted() {
    let mut sim = Simulation::new();
    assert!(sim.try_spawn(Direction::North, Route::Straight));
    for _ in 0..1000 {
        sim.step(16_667);
    }
    assert_eq!(sim.completed_crossings(), 1);
    assert!(sim.vehicles().is_empty());
    assert_eq!(sim.spawned(), 1);
}

#[test]
fn every_spawned_vehicle_is_on_the_map_or_has_crossed() {
    let mut sim = Simulation::new();
    let dirs = [Direction::North, Direction::East, Direction::South, Direction::West];
    let routes = [Route::Straight, Route::Left, Route::Right];
    for frame in 0..900usize {
        if frame % 15 == 0 {
            sim.try_spawn(dirs[(frame / 15) % 4], routes[(frame / 11) % 3]);
        }
        sim.step(16_667);
        assert_eq!(sim.vehicles().len() + sim.completed_crossings(), sim.spawned());
        let ids: Vec<usize> = sim.vehicles().iter().map(|v| v.id).collect();
        for w in ids.windows(2) {
            assert!(w[0] < w[1]);
        }
        let t = sim.controller().timer;
        assert!(t > 0 && t <= 5_000_000);
    }
    assert!(sim.completed_crossings() > 0);
}

#[test]
fn arrow_keys_spawn_at_the_opposite_entry() {
    assert_eq!(key_direction(SpawnKey::Up), Some(Direction::South));
    assert_eq!(key_direction(SpawnKey::Down), Some(Direction::North));
    assert_eq!(key_direction(SpawnKey::Right), Some(Direction::West));
    assert_eq!(key_direction(SpawnKey::Left), Some(Direction::East));
    assert_eq!(key_direction(SpawnKey::Random), None);

    let mut rng = rand::thread_rng();
    let mut sim = Simulation::new();
    assert!(sim.spawn_for_key(SpawnKey::Up, &mut rng));
    assert_eq!(sim.vehicles()[0].spawn_direction, Direction::South);
    assert_eq!((sim.vehicles()[0].x, sim.vehicles()[0].y), (430 * U, 850 * U));
    assert!(!sim.spawn_for_key(SpawnKey::Up, &mut rng));
    assert_eq!(sim.spawned(), 1);
}

#[test]
fn random_spawns_reach_every_entry_and_route() {
    let mut rng = rand::thread_rng();
    let mut seen_dirs = [false; 4];
    let mut seen_routes = [false; 3];
    for _ in 0..300 {
        let mut sim = Simulation::new();
        assert!(sim.spawn_for_key(SpawnKey::Random, &mut rng));
        let v = &sim.vehicles()[0];
        seen_dirs[v.spawn_direction.to_index()] = true;
        let r = match v.route {
            Route::Straight => 0,
            Route::Left => 1,
            Route::Right => 2,
        };
        seen_routes[r] = true;
        let expected_len = if r == 0 { 3 } else { 11 };
        assert_eq!(v.path.len(), expected_len);
    }
    assert_eq!(seen_dirs, [true; 4]);
    assert_eq!(seen_routes, [true; 3]);
}

#[test]
fn random_keys_take_the_approach_of_their_draw() {
    assert_eq!(choose_approach(SpawnKey::Random, 0), Direction::North);
    assert_eq!(choose_approach(SpawnKey::Random, 1), Direction::East);
    assert_eq!(choose_approach(SpawnKey::Random, 2), Direction::South);
    assert_eq!(choose_approach(SpawnKey::Random, 3), Direction::West);
    assert_eq!(choose_approach(SpawnKey::Up, 3), Direction::South);
    assert_eq!(choose_approach(SpawnKey::Left, 0), Direction::East);
}
