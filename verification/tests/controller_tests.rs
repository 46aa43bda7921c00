use traffic_control::controller::{
    lane_indicator, light_aspect, state_label, Aspect, LightState, TrafficLightController, ALL_RED_TIME, GREEN_TIME,
    QUEUE_CAPACITY, YELLOW_TIME,
};
use traffic_control::direction::{Direction, Route};

fn controller(
    active: Direction,
    state: LightState,
    timer: i64,
    extended: bool,
    next: Direction,
) -> TrafficLightController {
    TrafficLightController {
        active_direction: active,
        state,
        timer,
        extended,
        next_direction: next,
    }
}

#[test]
fn direction_cycle_and_slots() {
    let all = [Direction::North, Direction::East, Direction::South, Direction::West];
    for (i, d) in all.iter().enumerate() {
        assert_eq!(d.to_index(), i);
        assert_eq!(Direction::from_index(i), *d);
        assert_eq!(d.next(), all[(i + 1) % 4]);
        assert_ne!(d.next(), *d);
        assert_eq!(d.next().next().next().next(), *d);
    }
    assert_eq!(Route::from_index(0), Route::Straight);
    assert_eq!(Route::from_index(1), Route::Left);
    assert_eq!(Route::from_index(2), Route::Right);
}

#[test]
fn new_controller_gives_north_a_full_green() {
    let c = TrafficLightController::new();
    assert_eq!(c.active_direction, Direction::North);
    assert_eq!(c.state, LightState::Green);
    assert_eq!(c.timer, GREEN_TIME);
    assert!(!c.extended);
    assert_eq!(c.next_direction, Direction::North);
}

#[test]
fn capacity_is_seven() {
    assert_eq!(QUEUE_CAPACITY, 340 / (30 + 15));
}

#[test]
fn select_prefers_the_longest_congested_red_lane() {
    let c = controller(Direction::North, LightState::Green, 1, false, Direction::North);
    assert_eq!(c.select_next_direction(&[9, 8, 10, 7]), Direction::South);
}

#[test]
fn select_breaks_ties_by_slot_order() {
    let c = controller(Direction::North, LightState::Green, 1, false, Direction::North);
    assert_eq!(c.select_next_direction(&[0, 8, 0, 8]), Direction::East);
}

#[test]
fn select_ignores_a_congested_green_lane() {
    let c = controller(Direction::North, LightState::Green, 1, false, Direction::North);
    assert_eq!(c.select_next_direction(&[20, 0, 0, 0]), Direction::East);
}

#[test]
fn select_takes_the_first_waiting_lane_clockwise() {
    let c = controller(Direction::East, LightState::Green, 1, false, Direction::North);
    assert_eq!(c.select_next_direction(&[3, 0, 0, 1]), Direction::West);
    let c = controller(Direction::West, LightState::Green, 1, false, Direction::North);
    assert_eq!(c.select_next_direction(&[0, 2, 5, 0]), Direction::East);
}

#[test]
fn select_below_capacity_does_not_prefer_longer_queues() {
    let c = controller(Direction::North, LightState::Green, 1, false, Direction::North);
    assert_eq!(c.select_next_direction(&[0, 1, 6, 0]), Direction::East);
}

#[test]
fn green_counts_down() {
    let mut c = TrafficLightController::new();
    c.update(1_000_000, &[0, 0, 0, 0]);
    assert_eq!(c.state, LightState::Green);
    assert_eq!(c.timer, 4_000_000);
    assert!(!c.extended);
}

#[test]
fn congested_green_is_extended_once() {
    let mut c = controller(Direction::North, LightState::Green, 2_500_000, false, Direction::North);
    c.update(1_000_000, &[7, 0, 0, 0]);
    assert_eq!(c.state, LightState::Green);
    assert_eq!(c.timer, 4_500_000);
    assert!(c.extended);

    let mut c = controller(Direction::North, LightState::Green, 1_500_000, true, Direction::North);
    c.update(1_000_000, &[7, 0, 0, 0]);
    assert_eq!(c.state, LightState::Green);
    assert_eq!(c.timer, 500_000);
    c.update(600_000, &[7, 0, 0, 0]);
    assert_eq!(c.state, LightState::Yellow);
    assert_eq!(c.timer, YELLOW_TIME);
    assert_eq!(c.next_direction, Direction::East);
    assert!(c.extended);
}

#[test]
fn empty_green_yields_early_to_waiting_lanes() {
    let mut c = controller(Direction::North, LightState::Green, 3_500_000, false, Direction::North);
    c.update(1_000_000, &[0, 0, 2, 0]);
    assert_eq!(c.state, LightState::Yellow);
    assert_eq!(c.next_direction, Direction::South);

    let mut c = controller(Direction::North, LightState::Green, 5_000_000, false, Direction::North);
    c.update(1_000_000, &[0, 0, 2, 0]);
    assert_eq!(c.state, LightState::Green);
    assert_eq!(c.timer, 4_000_000);
}

#[test]
fn yellow_then_all_red_then_green_for_the_next_lane() {
    let mut c = controller(Direction::North, LightState::Yellow, 1_000_000, true, Direction::West);
    c.update(1_000_000, &[0, 0, 0, 0]);
    assert_eq!(c.state, LightState::AllRed);
    assert_eq!(c.timer, ALL_RED_TIME);
    c.update(500_000, &[0, 0, 0, 0]);
    assert_eq!(c.state, LightState::AllRed);
    assert_eq!(c.timer, 500_000);
    c.update(500_000, &[0, 0, 0, 0]);
    assert_eq!(c.state, LightState::Green);
    assert_eq!(c.active_direction, Direction::West);
    assert_eq!(c.timer, GREEN_TIME);
    assert!(!c.extended);
}

#[test]
fn frame_by_frame_green_ends_when_less_than_three_seconds_remain() {
    let mut c = TrafficLightController::new();
    for _ in 0..119 {
        c.update(16_667, &[0, 3, 0, 0]);
    }
    assert_eq!(c.state, LightState::Green);
    c.update(16_667, &[0, 3, 0, 0]);
    assert_eq!(c.state, LightState::Yellow);
    assert_eq!(c.next_direction, Direction::East);
}

#[test]
fn timer_stays_positive_and_bounded_over_many_ticks() {
    let mut c = TrafficLightController::new();
    let queues = [[7, 0, 9, 1], [0, 0, 0, 0], [2, 8, 0, 0], [0, 0, 0, 12]];
    for k in 0..3000 {
        let before = c;
        c.update(16_667, &queues[(k / 97) % 4]);
        assert!(c.timer > 0 && c.timer <= GREEN_TIME);
        if c.active_direction != before.active_direction {
            assert_eq!(before.state, LightState::AllRed);
            assert_eq!(c.state, LightState::Green);
        }
    }
}

#[test]
fn light_aspects() {
    let c = controller(Direction::East, LightState::Green, 1, false, Direction::North);
    assert_eq!(light_aspect(Direction::East, &c), Aspect::Green);
    assert_eq!(light_aspect(Direction::North, &c), Aspect::Red);
    let c = controller(Direction::East, LightState::Yellow, 1, false, Direction::North);
    assert_eq!(light_aspect(Direction::East, &c), Aspect::Red);
    assert_eq!(light_aspect(Direction::West, &c), Aspect::Red);
    assert_eq!(lane_indicator(Direction::East, &c), Aspect::Green);
    assert_eq!(lane_indicator(Direction::West, &c), Aspect::Red);
    let c = controller(Direction::East, LightState::AllRed, 1, false, Direction::North);
    for d in [Direction::North, Direction::East, Direction::South, Direction::West] {
        assert_eq!(light_aspect(d, &c), Aspect::Red);
    }
}

#[test]
fn a_green_phase_ends_within_eight_seconds() {
    for queues in [[7, 0, 0, 0], [20, 9, 9, 9], [0, 0, 0, 0]] {
        let mut c = TrafficLightController::new();
        let mut ticks = 0;
        while c.state == LightState::Green {
            c.update(16_667, &queues);
            ticks += 1;
        }
        assert!(ticks * 16_667 <= 8_000_000 + 16_667);
        assert_eq!(c.state, LightState::Yellow);
    }
    let mut c = TrafficLightController::new();
    let mut ticks = 0;
    while c.state == LightState::Green {
        c.update(16_667, &[7, 0, 0, 0]);
        ticks += 1;
    }
    assert_eq!(ticks, 480);
}

#[test]
fn next_direction_changes_only_when_green_ends() {
    let mut c = TrafficLightController::new();
    let queues = [[0, 8, 0, 0], [0, 0, 3, 0], [1, 0, 0, 9]];
    for k in 0..2000 {
        let before = c;
        c.update(16_667, &queues[(k / 50) % 3]);
        if c.next_direction != before.next_direction {
            assert_eq!(before.state, LightState::Green);
            assert_eq!(c.state, LightState::Yellow);
        }
        if before.extended && !c.extended {
            assert_eq!(before.state, LightState::AllRed);
            assert_eq!(c.state, LightState::Green);
        }
    }
}

#[test]
fn each_phase_has_its_dashboard_label() {
    assert_eq!(state_label(LightState::Green), "GREEN");
    assert_eq!(state_label(LightState::Yellow), "YELLOW");
    assert_eq!(state_label(LightState::AllRed), "ALL RED (CLEARING)");
}

#[test]
fn a_spent_green_ends_within_its_extension() {
    let mut c = controller(Direction::North, LightState::Green, -5, false, Direction::East);
    let mut ticks = 0;
    while c.state == LightState::Green {
        c.update(16_667, &[7, 0, 0, 0]);
        ticks += 1;
    }
    assert_eq!(c.state, LightState::Yellow);
    assert!(ticks * 16_667 <= 3_000_000 + 16_667);
    assert_eq!(ticks, 180);
}
