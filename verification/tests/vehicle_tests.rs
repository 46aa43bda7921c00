use traffic_control::controller::{LightState, TrafficLightController};
use traffic_control::direction::{Direction, Route};
use traffic_control::geometry::{isqrt, move_toward, UNITS_PER_PIXEL};
use traffic_control::path::{generate_path, spawn_position};
use traffic_control::vehicle::{
    can_spawn, has_priority, predict_position, queue_lengths, update_vehicles, Vehicle,
};

const U: i64 = UNITS_PER_PIXEL;

fn vehicle(id: usize, dir: Direction, route: Route, wp: usize, x_px: i64, y_px: i64) -> Vehicle {
    Vehicle {
        id,
        spawn_direction: dir,
        route,
        path: generate_path(dir, route),
        current_waypoint: wp,
        x: x_px * U,
        y: y_px * U,
        is_stopped: false,
    }
}

fn green_for(d: Direction) -> TrafficLightController {
    TrafficLightController {
        active_direction: d,
        state: LightState::Green,
        timer: 4_000_000,
        extended: false,
        next_direction: d.next(),
    }
}

#[test]
fn integer_square_roots() {
    assert_eq!(isqrt(0), 0);
    assert_eq!(isqrt(15), 3);
    assert_eq!(isqrt(16), 4);
    assert_eq!(isqrt(17), 4);
    assert_eq!(isqrt(1 << 62), 1 << 31);
}

#[test]
fn moving_towards_a_target() {
    assert_eq!(move_toward(0, 0, (0, 640)), (0, 640, true));
    assert_eq!(move_toward(0, 0, (0, 10_000)), (0, 640, false));
    assert_eq!(move_toward(0, 0, (3000, 4000)), (384, 512, false));
    assert_eq!(move_toward(0, 0, (-3000, -4000)), (-384, -512, false));
    assert_eq!(move_toward(100, 100, (100, 100)), (100, 100, true));
    // Length 1000.97 rounds up to 1001: the step (639, 28) is shorter than 640.
    assert_eq!(move_toward(0, 0, (1000, 44)), (639, 28, false));
    let (x, y, _) = move_toward(0, 0, (1000, 44));
    assert!(x * x + y * y <= 640 * 640);
}

#[test]
fn straight_path_from_the_north() {
    let p = generate_path(Direction::North, Route::Straight);
    assert_eq!(p, vec![(370 * U, -50 * U), (370 * U, 340 * U), (370 * U, 850 * U)]);
}

#[test]
fn left_turn_from_the_north_follows_its_curve() {
    let p = generate_path(Direction::North, Route::Left);
    assert_eq!(p.len(), 11);
    assert_eq!(p[0], (370 * U, -50 * U));
    assert_eq!(p[1], (370 * U, 340 * U));
    // t = 1/2: (1/4) * stop + (1/2) * control + (1/4) * end = (392.5, 407.5) px
    assert_eq!(p[5], (125_600, 130_400));
    assert_eq!(p[9], (460 * U, 430 * U));
    assert_eq!(p[10], (850 * U, 430 * U));
}

#[test]
fn right_turn_from_the_east_ends_heading_north() {
    let p = generate_path(Direction::East, Route::Right);
    assert_eq!(p.len(), 11);
    assert_eq!(p[0], (850 * U, 370 * U));
    assert_eq!(p[9], (430 * U, 340 * U));
    assert_eq!(p[10], (430 * U, -50 * U));
    assert_eq!(spawn_position(Direction::East), p[0]);
}

#[test]
fn spawning_needs_a_clear_entry() {
    assert!(can_spawn(Direction::North, &[]));
    let at_entry = vehicle(0, Direction::North, Route::Straight, 1, 370, -50);
    assert!(!can_spawn(Direction::North, &[at_entry.clone()]));
    assert!(can_spawn(Direction::South, &[at_entry]));
    let just_clear = vehicle(0, Direction::North, Route::Straight, 1, 370, -5);
    assert!(can_spawn(Direction::North, &[just_clear]));
    let too_close = vehicle(0, Direction::North, Route::Straight, 1, 370, -6);
    assert!(!can_spawn(Direction::North, &[too_close]));
}

#[test]
fn priority_rules() {
    let entered = vehicle(5, Direction::North, Route::Straight, 2, 370, 400);
    let waiting = vehicle(1, Direction::East, Route::Straight, 1, 500, 370);
    assert!(has_priority(&entered, &waiting));
    assert!(!has_priority(&waiting, &entered));

    let near = vehicle(7, Direction::North, Route::Straight, 1, 370, 300);
    let far = vehicle(2, Direction::South, Route::Straight, 1, 430, 520);
    assert!(has_priority(&near, &far));
    assert!(!has_priority(&far, &near));

    let a = vehicle(3, Direction::North, Route::Straight, 1, 370, 300);
    let b = vehicle(4, Direction::South, Route::Straight, 1, 430, 500);
    assert!(has_priority(&a, &b));
    assert!(!has_priority(&b, &a));

    let fewer_left = vehicle(9, Direction::North, Route::Straight, 2, 370, 400);
    let more_left = vehicle(1, Direction::West, Route::Left, 2, 345, 430);
    assert!(has_priority(&fewer_left, &more_left));
    assert!(!has_priority(&fewer_left, &fewer_left));
}

#[test]
fn predictions() {
    let ctrl = green_for(Direction::North);
    let car = vehicle(0, Direction::North, Route::Straight, 1, 370, -50);
    assert_eq!(predict_position(&car, 0, &ctrl, true), (370 * U, -50 * U));
    assert_eq!(predict_position(&car, 10, &ctrl, true), (370 * U, -30 * U));

    let mut stopped = car.clone();
    stopped.is_stopped = true;
    assert_eq!(predict_position(&stopped, 10, &ctrl, false), (370 * U, -50 * U));
    assert_eq!(predict_position(&stopped, 10, &ctrl, true), (370 * U, -30 * U));

    let red = green_for(Direction::East);
    let at_line = vehicle(0, Direction::North, Route::Straight, 1, 370, 330);
    assert_eq!(predict_position(&at_line, 30, &red, true), (370 * U, 330 * U));
    let before_line = vehicle(0, Direction::North, Route::Straight, 1, 370, 300);
    assert_eq!(predict_position(&before_line, 30, &red, true), (370 * U, 316 * U));
}

#[test]
fn a_free_vehicle_moves_two_pixels() {
    let ctrl = green_for(Direction::North);
    let mut vs = vec![vehicle(0, Direction::North, Route::Straight, 1, 370, -50)];
    let mut done = 0;
    update_vehicles(&mut vs, &ctrl, &mut done);
    assert_eq!(done, 0);
    assert_eq!(vs.len(), 1);
    assert_eq!((vs[0].x, vs[0].y), (370 * U, -48 * U));
    assert!(!vs[0].is_stopped);
}

#[test]
fn a_vehicle_reaching_its_exit_is_removed_and_counted() {
    let ctrl = green_for(Direction::North);
    let mut vs = vec![vehicle(0, Direction::North, Route::Straight, 2, 370, 849)];
    let mut done = 4;
    update_vehicles(&mut vs, &ctrl, &mut done);
    assert_eq!(done, 5);
    assert!(vs.is_empty());
}

#[test]
fn red_light_holds_a_vehicle_at_its_stop_line() {
    let ctrl = green_for(Direction::East);
    let mut vs = vec![vehicle(0, Direction::North, Route::Straight, 1, 370, 330)];
    let mut done = 0;
    update_vehicles(&mut vs, &ctrl, &mut done);
    assert_eq!((vs[0].x, vs[0].y), (370 * U, 330 * U));
    assert!(vs[0].is_stopped);
}

#[test]
fn a_follower_keeps_its_distance() {
    let ctrl = green_for(Direction::North);
    let mut vs = vec![
        vehicle(0, Direction::North, Route::Straight, 1, 370, 0),
        vehicle(1, Direction::North, Route::Straight, 1, 370, -40),
    ];
    let mut done = 0;
    update_vehicles(&mut vs, &ctrl, &mut done);
    assert_eq!((vs[0].x, vs[0].y), (370 * U, 2 * U));
    assert!(!vs[0].is_stopped);
    assert_eq!((vs[1].x, vs[1].y), (370 * U, -40 * U));
    assert!(vs[1].is_stopped);
}

#[test]
fn a_held_vehicle_before_any_exit_stays_put() {
    let ctrl = green_for(Direction::East);
    let mut vs = vec![
        vehicle(1, Direction::North, Route::Straight, 1, 370, 330),
        vehicle(0, Direction::West, Route::Straight, 2, 849, 430),
    ];
    let mut done = 0;
    update_vehicles(&mut vs, &ctrl, &mut done);
    assert_eq!(done, 1);
    assert_eq!(vs.len(), 1);
    assert_eq!((vs[0].x, vs[0].y), (370 * U, 330 * U));
    assert!(vs[0].is_stopped);
}

#[test]
fn after_an_exit_each_vehicle_keeps_its_own_decision() {
    let ctrl = green_for(Direction::East);
    let mut vs = vec![
        vehicle(0, Direction::West, Route::Straight, 2, 849, 430),
        vehicle(1, Direction::North, Route::Straight, 1, 370, 330),
    ];
    let mut done = 0;
    update_vehicles(&mut vs, &ctrl, &mut done);
    assert_eq!(done, 1);
    assert_eq!(vs.len(), 1);
    assert_eq!(vs[0].id, 1);
    assert_eq!((vs[0].x, vs[0].y), (370 * U, 330 * U));
    assert!(vs[0].is_stopped);
}

#[test]
fn a_follower_still_yields_after_an_exit() {
    let ctrl = TrafficLightController::new();
    let mut vs = vec![
        vehicle(0, Direction::North, Route::Straight, 2, 370, 849),
        vehicle(1, Direction::East, Route::Straight, 1, 500, 370),
        vehicle(2, Direction::East, Route::Straight, 1, 470, 370),
    ];
    let mut done = 0;
    update_vehicles(&mut vs, &ctrl, &mut done);
    assert_eq!(done, 1);
    assert_eq!(vs.len(), 2);
    assert_eq!(vs[0].id, 1);
    assert!(vs[0].is_stopped);
    assert_eq!((vs[0].x, vs[0].y), (500 * U, 370 * U));
    assert_eq!(vs[1].id, 2);
    assert!(vs[1].is_stopped);
    assert_eq!((vs[1].x, vs[1].y), (470 * U, 370 * U));
}

#[test]
fn a_lone_vehicle_on_a_one_point_path_reaches_it() {
    let ctrl = TrafficLightController::new();
    let mut vs = vec![Vehicle {
        id: 0,
        spawn_direction: Direction::North,
        route: Route::Straight,
        path: vec![(0, 0)],
        current_waypoint: 0,
        x: 0,
        y: U,
        is_stopped: false,
    }];
    let mut done = 0;
    update_vehicles(&mut vs, &ctrl, &mut done);
    assert_eq!(done, 1);
    assert!(vs.is_empty());
}

#[test]
fn the_entry_check_looks_at_each_vehicle_on_its_own() {
    let near = vehicle(0, Direction::North, Route::Straight, 1, 370, -20);
    let far = vehicle(1, Direction::North, Route::Straight, 1, 370, 100);
    let other = vehicle(2, Direction::South, Route::Straight, 1, 430, 850);
    let lists = [vec![], vec![far.clone()], vec![near.clone()], vec![other.clone(), far.clone()]];
    for vs in lists.iter() {
        for ws in lists.iter() {
            let both: Vec<Vehicle> = vs.iter().chain(ws.iter()).cloned().collect();
            assert_eq!(
                can_spawn(Direction::North, &both),
                can_spawn(Direction::North, vs) && can_spawn(Direction::North, ws)
            );
        }
    }
}

#[test]
fn predictions_stay_within_reach() {
    let ctrl = green_for(Direction::North);
    let car = vehicle(0, Direction::North, Route::Left, 1, 370, 320);
    let (x0, y0) = (car.x, car.y);
    for steps in 0..60usize {
        let (x, y) = predict_position(&car, steps, &ctrl, true);
        let reach = 640 * steps as i64;
        assert!((x - x0) * (x - x0) + (y - y0) * (y - y0) <= reach * reach);
    }
}

#[test]
fn queues_count_vehicles_before_their_stop_line() {
    let vs = vec![
        vehicle(0, Direction::North, Route::Straight, 1, 370, 100),
        vehicle(1, Direction::North, Route::Straight, 2, 370, 400),
        vehicle(2, Direction::West, Route::Left, 1, 100, 430),
        vehicle(3, Direction::North, Route::Right, 0, 370, -50),
    ];
    assert_eq!(queue_lengths(&vs), [2, 0, 0, 1]);
    assert_eq!(queue_lengths(&[]), [0, 0, 0, 0]);
}

#[test]
fn a_lone_cars_prediction_is_its_next_frame() {
    let cases = [
        (green_for(Direction::North), vehicle(0, Direction::North, Route::Straight, 1, 370, -50)),
        (green_for(Direction::East), vehicle(0, Direction::North, Route::Straight, 1, 370, 330)),
        (green_for(Direction::East), vehicle(0, Direction::North, Route::Straight, 1, 370, 300)),
        (green_for(Direction::North), vehicle(0, Direction::North, Route::Left, 2, 370, 350)),
    ];
    for (ctrl, car) in cases {
        let predicted = predict_position(&car, 1, &ctrl, true);
        let mut vs = vec![car];
        let mut done = 0;
        update_vehicles(&mut vs, &ctrl, &mut done);
        assert_eq!(vs.len(), 1);
        assert_eq!(predicted, (vs[0].x, vs[0].y));
    }
}
