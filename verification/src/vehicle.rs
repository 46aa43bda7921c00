use vstd::prelude::*;
use crate::controller::{Aspect, LightState, TrafficLightController};
use crate::direction::{Direction, Route};
use crate::geometry::{
    SPEED, dist_sq, distance_sq, in_range, isqrt, move_toward, point_in_range,
    sqrt_floor, step_toward,
};
use crate::path::spawn_point;

verus! {

/// A vehicle on the red-light side stops once it is this close to the stop line (25 px).
pub const RED_STOP_RADIUS: i64 = 8000;

/// On yellow, a vehicle this close to its stop line or closer (15 px) drives on.
pub const YELLOW_COMMITTED_RADIUS: i64 = 4800;

/// On yellow, a vehicle beyond `YELLOW_COMMITTED_RADIUS` but within this
/// distance of its stop line (45 px) stops.
pub const YELLOW_STOP_RADIUS: i64 = 14400;

/// Gap kept to a vehicle ahead in the same lane (42 px).
pub const QUEUE_MARGIN: i64 = 13440;

/// Gap kept to a crossing vehicle (35 px).
pub const CROSSING_MARGIN: i64 = 11200;

/// Distances to the stop line closer than this (0.1 px) count as equal when
/// deciding who goes first.
pub const DISTANCE_TOLERANCE: i64 = 32;

/// Room a new vehicle needs at the entry point: vehicle length plus safety gap (45 px).
pub const SPAWN_CLEARANCE: i64 = 14400;

/// Number of frames looked ahead when checking for collisions.
pub const PREDICTION_HORIZON: usize = 40;

/// A vehicle following its waypoints; positions are in `geometry` units.
#[derive(Debug, Clone, PartialEq)]
pub struct Vehicle {
    pub id: usize,
    pub spawn_direction: Direction,
    pub route: Route,
    pub path: Vec<(i64, i64)>,
    /// Index of the waypoint the vehicle is heading for; `1` is the stop line.
    pub current_waypoint: usize,
    pub x: i64,
    pub y: i64,
    pub is_stopped: bool,
}

impl Vehicle {
    /// The vehicle has passed its last waypoint.
    pub open spec fn finished(self) -> bool {
        self.current_waypoint >= self.path@.len()
    }

    /// The vehicle is past its stop line.
    pub open spec fn entered(self) -> bool {
        self.current_waypoint > 1
    }

    /// The position and every waypoint have coordinates in range.
    pub open spec fn positions_in_range(self) -> bool {
        &&& in_range(self.x as int)
        &&& in_range(self.y as int)
        &&& forall|k: int| 0 <= k < self.path@.len() ==> point_in_range(#[trigger] self.path@[k])
    }

    /// A path with an entry and a stop line, a waypoint index no further than
    /// the end of the path, and every coordinate in range.
    pub open spec fn well_placed(self) -> bool {
        &&& 2 <= self.path@.len()
        &&& self.current_waypoint <= self.path@.len()
        &&& self.positions_in_range()
    }

    /// What deciding priority reads of the vehicle exists: past the stop
    /// line, a waypoint index no further than the end of the path; before it,
    /// a stop line, with the position and the stop line in range.
    pub open spec fn priority_readable(self) -> bool {
        if self.entered() {
            self.current_waypoint <= self.path@.len()
        } else {
            &&& 2 <= self.path@.len()
            &&& in_range(self.x as int)
            &&& in_range(self.y as int)
            &&& point_in_range(self.path@[1])
        }
    }

    /// Squared distance from the vehicle to its stop line.
    pub open spec fn stop_line_dist_sq(self) -> int {
        dist_sq(self.path@[1].0 as int, self.path@[1].1 as int, self.x as int, self.y as int)
    }
}

/// A vehicle of approach `dir` at squared distance `d2` from its stop line
/// must wait there: on red within 25 px; on yellow between 15 px and 45 px.
pub open spec fn held_by_light(ctrl: TrafficLightController, dir: Direction, d2: int) -> bool {
    let is_active = ctrl.active_direction == dir;
    let light_is_red = !is_active || ctrl.state == LightState::AllRed;
    let light_is_yellow = is_active && ctrl.state == LightState::Yellow;
    if light_is_red {
        d2 <= RED_STOP_RADIUS * RED_STOP_RADIUS
    } else if light_is_yellow {
        YELLOW_COMMITTED_RADIUS * YELLOW_COMMITTED_RADIUS < d2 <= YELLOW_STOP_RADIUS
            * YELLOW_STOP_RADIUS
    } else {
        false
    }
}

/// `a` goes before `b`: a vehicle past its stop line goes before one that is
/// not; of two past it, the one with fewer waypoints left; of two before it,
/// the one clearly closer to its stop line; otherwise the older one (lower id).
pub open spec fn priority_over(a: Vehicle, b: Vehicle) -> bool {
    if a.entered() != b.entered() {
        a.entered()
    } else if a.entered() {
        let a_left = a.path@.len() - a.current_waypoint;
        let b_left = b.path@.len() - b.current_waypoint;
        if a_left != b_left {
            a_left < b_left
        } else {
            a.id < b.id
        }
    } else {
        let a_dist = sqrt_floor(a.stop_line_dist_sq());
        let b_dist = sqrt_floor(b.stop_line_dist_sq());
        if a_dist - b_dist > DISTANCE_TOLERANCE || b_dist - a_dist > DISTANCE_TOLERANCE {
            a_dist < b_dist
        } else {
            a.id < b.id
        }
    }
}

/// Position after `n` frames of driving from `(x, y)` towards waypoint `wp`
/// of `path`, halting for good at the end of the path or where the light
/// holds the vehicle at its stop line.
pub open spec fn coast(
    path: Seq<(i64, i64)>,
    dir: Direction,
    ctrl: TrafficLightController,
    x: int,
    y: int,
    wp: int,
    n: nat,
) -> (int, int)
    decreases n,
{
    if n == 0 || wp >= path.len() || (wp == 1 && held_by_light(
        ctrl,
        dir,
        dist_sq(path[1].0 as int, path[1].1 as int, x, y),
    )) {
        (x, y)
    } else {
        let target = path[wp];
        let (nx, ny, reached) = step_toward(x, y, target.0 as int, target.1 as int);
        coast(
            path,
            dir,
            ctrl,
            nx,
            ny,
            if reached {
                wp + 1
            } else {
                wp
            },
            (n - 1) as nat,
        )
    }
}

/// Where `car` is expected after `steps` frames; a stopped car stays put
/// unless it is assumed to move.
pub open spec fn predicted(car: Vehicle, steps: nat, ctrl: TrafficLightController, assume_moving: bool) -> (int, int) {
    if !assume_moving && car.is_stopped {
        (car.x as int, car.y as int)
    } else {
        coast(
            car.path@,
            car.spawn_direction,
            ctrl,
            car.x as int,
            car.y as int,
            car.current_waypoint as int,
            steps,
        )
    }
}

/// The whole of a coasting run stays in range.
pub proof fn lemma_coast_in_range(
    path: Seq<(i64, i64)>,
    dir: Direction,
    ctrl: TrafficLightController,
    x: int,
    y: int,
    wp: int,
    n: nat,
)
    requires
        in_range(x),
        in_range(y),
        wp >= 0,
        forall|k: int| 0 <= k < path.len() ==> point_in_range(#[trigger] path[k]),
    ensures
        in_range(coast(path, dir, ctrl, x, y, wp, n).0),
        in_range(coast(path, dir, ctrl, x, y, wp, n).1),
    decreases n,
{
    if n == 0 || wp >= path.len() || (wp == 1 && held_by_light(
        ctrl,
        dir,
        dist_sq(path[1].0 as int, path[1].1 as int, x, y),
    )) {
    } else {
        let target = path[wp];
        assert(point_in_range(path[wp]));
        crate::geometry::lemma_step_toward_bounded(x, y, target.0 as int, target.1 as int);
        let (nx, ny, reached) = step_toward(x, y, target.0 as int, target.1 as int);
        lemma_coast_in_range(
            path,
            dir,
            ctrl,
            nx,
            ny,
            if reached {
                wp + 1
            } else {
                wp
            },
            (n - 1) as nat,
        );
    }
}

fn light_holds(controller: &TrafficLightController, dir: Direction, d2: i64) -> (r: bool)
    ensures
        r == held_by_light(*controller, dir, d2 as int),
{
    let is_active = controller.active_direction == dir;
    let light_is_red = !is_active || controller.state == LightState::AllRed;
    let light_is_yellow = is_active && controller.state == LightState::Yellow;
    if light_is_red {
        d2 <= RED_STOP_RADIUS * RED_STOP_RADIUS
    } else if light_is_yellow {
        d2 > YELLOW_COMMITTED_RADIUS * YELLOW_COMMITTED_RADIUS && d2 <= YELLOW_STOP_RADIUS
            * YELLOW_STOP_RADIUS
    } else {
        false
    }
}

/// Whether `a` goes before `b` (see `priority_over`).
pub fn has_priority(a: &Vehicle, b: &Vehicle) -> (r: bool)
    requires
        a.entered() != b.entered() || (a.priority_readable() && b.priority_readable()),
    ensures
        r == priority_over(*a, *b),
{
    let a_entered = a.current_waypoint > 1;
    let b_entered = b.current_waypoint > 1;
    if a_entered != b_entered {
        return a_entered;
    }
    if a_entered {
        let a_left = a.path.len() - a.current_waypoint;
        let b_left = b.path.len() - b.current_waypoint;
        if a_left != b_left {
            return a_left < b_left;
        }
        return a.id < b.id;
    } else {
        let a_stop = a.path[1];
        let b_stop = b.path[1];
        let a_d2 = distance_sq(a_stop.0, a_stop.1, a.x, a.y);
        let b_d2 = distance_sq(b_stop.0, b_stop.1, b.x, b.y);
        let a_root = isqrt(a_d2 as u64);
        let b_root = isqrt(b_d2 as u64);
        assert(a_root <= 2147483648 && b_root <= 2147483648) by (nonlinear_arith)
            requires
                a_root * a_root <= 2305843009213693952,
                b_root * b_root <= 2305843009213693952,
        ;
        let a_dist = a_root as i64;
        let b_dist = b_root as i64;
        if a_dist - b_dist > DISTANCE_TOLERANCE || b_dist - a_dist > DISTANCE_TOLERANCE {
            return a_dist < b_dist;
        }
        return a.id < b.id;
    }
}

/// Where `car` will be after `steps` frames if it drives on (see `predicted`).
pub fn predict_position(
    car: &Vehicle,
    steps: usize,
    controller: &TrafficLightController,
    assume_moving: bool,
) -> (r: (i64, i64))
    requires
        car.positions_in_range(),
    ensures
        (r.0 as int, r.1 as int) == predicted(*car, steps as nat, *controller, assume_moving),
{
    if !assume_moving && car.is_stopped {
        return (car.x, car.y);
    }
    let ghost path = car.path@;
    let ghost goal = predicted(*car, steps as nat, *controller, assume_moving);
    let mut x = car.x;
    let mut y = car.y;
    let mut wp = car.current_waypoint;
    let mut k: usize = 0;

    while k < steps
        invariant
            path == car.path@,
            car.positions_in_range(),
            k <= steps,
            in_range(x as int),
            in_range(y as int),
            goal == coast(
                path,
                car.spawn_direction,
                *controller,
                x as int,
                y as int,
                wp as int,
                (steps - k) as nat,
            ),
        ensures
            goal == (x as int, y as int),
        decreases steps - k,
    {
        if wp >= car.path.len() {
            break;
        }
        // Traffic light check
        if wp == 1 {
            let stop_line = car.path[1];
            let d2 = distance_sq(stop_line.0, stop_line.1, x, y);
            if light_holds(controller, car.spawn_direction, d2) {
                break;
            }
        }
        let target = car.path[wp];
        assert(point_in_range(path[wp as int]));
        let (nx, ny, reached) = move_toward(x, y, target);
        x = nx;
        y = ny;
        if reached {
            wp = wp + 1;
        }
        k = k + 1;
    }
    (x, y)
}

/// `v` is a vehicle of approach `d` closer than `SPAWN_CLEARANCE` to the
/// entry point of `d`.
pub open spec fn crowds_entry(v: Vehicle, d: Direction) -> bool {
    v.spawn_direction == d && dist_sq(
        v.x as int,
        v.y as int,
        spawn_point(d).0 as int,
        spawn_point(d).1 as int,
    ) < SPAWN_CLEARANCE * SPAWN_CLEARANCE
}

/// No vehicle of `vs` crowds the entry of `d`.
pub open spec fn entry_clear_of(vs: Seq<Vehicle>, d: Direction) -> bool {
    !exists|i: int| 0 <= i < vs.len() && #[trigger] crowds_entry(vs[i], d)
}

/// The entry check looks at each vehicle on its own: on a list made of two
/// lists it holds exactly when it holds on both, and it holds on no vehicles.
pub proof fn lemma_entry_clear_concat(vs: Seq<Vehicle>, ws: Seq<Vehicle>, d: Direction)
    ensures
        entry_clear_of(vs + ws, d) == (entry_clear_of(vs, d) && entry_clear_of(ws, d)),
        entry_clear_of(Seq::empty(), d),
{
    let all = vs + ws;
    if !entry_clear_of(vs, d) {
        let i = choose|i: int| 0 <= i < vs.len() && #[trigger] crowds_entry(vs[i], d);
        assert(all[i] == vs[i]);
    }
    if !entry_clear_of(ws, d) {
        let i = choose|i: int| 0 <= i < ws.len() && #[trigger] crowds_entry(ws[i], d);
        assert(all[vs.len() + i] == ws[i]);
    }
    if !entry_clear_of(all, d) {
        let i = choose|i: int| 0 <= i < all.len() && #[trigger] crowds_entry(all[i], d);
        if i < vs.len() {
            assert(all[i] == vs[i]);
        } else {
            assert(all[i] == ws[i - vs.len()]);
        }
    }
}

/// Whether a vehicle may enter at `direction`: no vehicle of that approach is
/// within `SPAWN_CLEARANCE` of the entry point.
pub fn can_spawn(direction: Direction, vehicles: &[Vehicle]) -> (r: bool)
    requires
        forall|i: int|
            0 <= i < vehicles@.len() ==> in_range(#[trigger] vehicles@[i].x as int) && in_range(
                vehicles@[i].y as int,
            ),
    ensures
        r == entry_clear_of(vehicles@, direction),
{
    let spawn_pos = crate::path::spawn_position(direction);
    let threshold = SPAWN_CLEARANCE;
    let mut i: usize = 0;
    while i < vehicles.len()
        invariant
            i <= vehicles@.len(),
            spawn_pos == spawn_point(direction),
            threshold == SPAWN_CLEARANCE,
            forall|j: int|
                0 <= j < vehicles@.len() ==> in_range(#[trigger] vehicles@[j].x as int) && in_range(
                    vehicles@[j].y as int,
                ),
            forall|j: int| 0 <= j < i ==> !#[trigger] crowds_entry(vehicles@[j], direction),
        decreases vehicles@.len() - i,
    {
        let v = &vehicles[i];
        if v.spawn_direction == direction {
            let d2 = distance_sq(v.x, v.y, spawn_pos.0, spawn_pos.1);
            if d2 < threshold * threshold {
                assert(crowds_entry(vehicles@[i as int], direction));
                return false;
            }
        }
        assert(!crowds_entry(vehicles@[i as int], direction));
        i = i + 1;
    }
    true
}

/// At `t` frames ahead, `car` (assumed to drive on) would come closer to
/// `other` (as it is expected to move) than the margin for their situation:
/// a queue margin in the same lane, a crossing margin otherwise.
pub open spec fn conflict_at(car: Vehicle, other: Vehicle, ctrl: TrafficLightController, t: nat) -> bool {
    let pc = predicted(car, t, ctrl, true);
    let po = predicted(other, t, ctrl, false);
    let limit = if car.spawn_direction == other.spawn_direction {
        QUEUE_MARGIN
    } else {
        CROSSING_MARGIN
    };
    dist_sq(pc.0, pc.1, po.0, po.1) < limit * limit
}

/// Some frame within the prediction horizon brings `car` too close to `other`.
pub open spec fn foresees_conflict(car: Vehicle, other: Vehicle, ctrl: TrafficLightController) -> bool {
    exists|t: nat| t < PREDICTION_HORIZON && #[trigger] conflict_at(car, other, ctrl, t)
}

/// Vehicle `j` makes vehicle `i` wait: it is another vehicle still on its
/// way, it goes first, and driving on would bring `i` too close to it.
pub open spec fn blocks(vs: Seq<Vehicle>, j: int, i: int, ctrl: TrafficLightController) -> bool {
    &&& j != i
    &&& !vs[j].finished()
    &&& priority_over(vs[j], vs[i])
    &&& foresees_conflict(vs[i], vs[j], ctrl)
}

/// Vehicle `i` must wait this frame: the light holds it at its stop line, or
/// another vehicle blocks it.
pub open spec fn must_stop(vs: Seq<Vehicle>, i: int, ctrl: TrafficLightController) -> bool {
    &&& !vs[i].finished()
    &&& {
        ||| (vs[i].current_waypoint == 1 && held_by_light(
            ctrl,
            vs[i].spawn_direction,
            vs[i].stop_line_dist_sq(),
        ))
        ||| exists|j: int| 0 <= j < vs.len() && #[trigger] blocks(vs, j, i, ctrl)
    }
}

/// The wait decision of every vehicle, taken before any of them moves.
pub open spec fn stop_flags(vs: Seq<Vehicle>, ctrl: TrafficLightController) -> Seq<bool> {
    Seq::new(vs.len(), |i: int| must_stop(vs, i, ctrl))
}

/// The vehicle after one frame: waiting in place, or one step along its path.
pub open spec fn advanced(v: Vehicle, stop: bool) -> Vehicle {
    if stop {
        Vehicle { is_stopped: true, ..v }
    } else {
        let target = v.path@[v.current_waypoint as int];
        let (nx, ny, reached) = step_toward(v.x as int, v.y as int, target.0 as int, target.1 as int);
        Vehicle {
            is_stopped: false,
            x: nx as i64,
            y: ny as i64,
            current_waypoint: if reached {
                (v.current_waypoint + 1) as usize
            } else {
                v.current_waypoint
            },
            ..v
        }
    }
}

/// Moving the first `m` vehicles of `vs` in order, each by its own wait
/// decision (`flags[j]` for `vs[j]`), and dropping those that reach the end of
/// their path: the vehicles kept, and how many were dropped.
pub open spec fn settle(vs: Seq<Vehicle>, flags: Seq<bool>, m: nat) -> (Seq<Vehicle>, nat)
    decreases m,
{
    if m == 0 {
        (Seq::empty(), 0)
    } else {
        let (kept, done) = settle(vs, flags, (m - 1) as nat);
        let v = advanced(vs[m - 1], flags[m - 1]);
        if v.finished() {
            (kept, done + 1)
        } else {
            (kept.push(v), done)
        }
    }
}

/// What a frame reads of the vehicles is there: every vehicle is on its way
/// with coordinates in range, and one whose path has no stop line is the
/// only vehicle that has not passed its stop line.
pub open spec fn frame_ready(vs: Seq<Vehicle>) -> bool {
    forall|i: int|
        #![trigger vs[i]]
        0 <= i < vs.len() ==> {
            &&& vs[i].positions_in_range()
            &&& !vs[i].finished()
            &&& (vs[i].path@.len() >= 2 || forall|j: int|
                0 <= j < vs.len() && j != i ==> #[trigger] vs[j].entered())
        }
}

/// Every vehicle of `vs` may take part in a frame: well placed and on its way.
pub open spec fn all_on_their_way(vs: Seq<Vehicle>) -> bool {
    forall|i: int| #![trigger vs[i]] 0 <= i < vs.len() ==> vs[i].well_placed() && !vs[i].finished()
}

/// Well-placed vehicles on their way are ready for a frame.
pub proof fn lemma_on_their_way_ready(vs: Seq<Vehicle>)
    requires
        all_on_their_way(vs),
    ensures
        frame_ready(vs),
{
}

/// Each of the first `m` vehicles is either kept or dropped.
pub proof fn lemma_settle_counts(vs: Seq<Vehicle>, flags: Seq<bool>, m: nat)
    ensures
        settle(vs, flags, m).0.len() + settle(vs, flags, m).1 == m,
    decreases m,
{
    if m > 0 {
        lemma_settle_counts(vs, flags, (m - 1) as nat);
    }
}

/// Whether driving on would bring `car` too close to `other` within the horizon.
fn collision_ahead(car: &Vehicle, other: &Vehicle, controller: &TrafficLightController) -> (r: bool)
    requires
        car.positions_in_range(),
        other.positions_in_range(),
    ensures
        r == foresees_conflict(*car, *other, *controller),
{
    let mut collision = false;
    let mut t: usize = 0;
    while t < PREDICTION_HORIZON
        invariant_except_break
            !collision,
        invariant
            car.positions_in_range(),
            other.positions_in_range(),
            t <= PREDICTION_HORIZON,
            forall|s: nat| s < t ==> !#[trigger] conflict_at(*car, *other, *controller, s),
        ensures
            collision ==> foresees_conflict(*car, *other, *controller),
            !collision ==> forall|s: nat|
                s < PREDICTION_HORIZON ==> !#[trigger] conflict_at(*car, *other, *controller, s),
        decreases PREDICTION_HORIZON - t,
    {
        let pos_car = predict_position(car, t, controller, true);
        let pos_other = predict_position(other, t, controller, false);
        proof {
            lemma_coast_in_range(
                car.path@,
                car.spawn_direction,
                *controller,
                car.x as int,
                car.y as int,
                car.current_waypoint as int,
                t as nat,
            );
            lemma_coast_in_range(
                other.path@,
                other.spawn_direction,
                *controller,
                other.x as int,
                other.y as int,
                other.current_waypoint as int,
                t as nat,
            );
        }
        let d2 = distance_sq(pos_car.0, pos_car.1, pos_other.0, pos_other.1);
        let limit = if car.spawn_direction == other.spawn_direction {
            QUEUE_MARGIN
        } else {
            CROSSING_MARGIN
        };
        if d2 < limit * limit {
            assert(conflict_at(*car, *other, *controller, t as nat));
            collision = true;
            break;
        }
        t = t + 1;
    }
    collision
}

/// Whether vehicle `i` must wait this frame (see `must_stop`).
fn must_stop_at(vehicles: &Vec<Vehicle>, i: usize, controller: &TrafficLightController) -> (r: bool)
    requires
        i < vehicles@.len(),
        frame_ready(vehicles@),
    ensures
        r == must_stop(vehicles@, i as int, *controller),
{
    let ghost vs = vehicles@;
    let num_vehicles = vehicles.len();
    let car = &vehicles[i];
    if car.current_waypoint >= car.path.len() {
        return false;
    }
    let target = car.path[car.current_waypoint];
    assert(vs[i as int].positions_in_range());
    assert(point_in_range(car.path@[car.current_waypoint as int]));
    let d2 = distance_sq(target.0, target.1, car.x, car.y);
    let mut stop = false;

    // 1. Traffic light check
    if car.current_waypoint == 1 {
        if light_holds(controller, car.spawn_direction, d2) {
            stop = true;
        }
    }
    // 2. Predictive collision check
    if !stop {
        let mut j: usize = 0;
        while j < num_vehicles
            invariant_except_break
                !stop,
            invariant
                vs == vehicles@,
                num_vehicles == vs.len(),
                i < num_vehicles,
                *car == vs[i as int],
                frame_ready(vs),
                j <= num_vehicles,
                forall|k: int| 0 <= k < j ==> !#[trigger] blocks(vs, k, i as int, *controller),
            ensures
                stop ==> exists|k: int| 0 <= k < vs.len() && #[trigger] blocks(vs, k, i as int, *controller),
                !stop ==> forall|k: int| 0 <= k < vs.len() ==> !#[trigger] blocks(vs, k, i as int, *controller),
            decreases num_vehicles - j,
        {
            if i != j {
                let other = &vehicles[j];
                if other.current_waypoint < other.path.len() {
                    proof {
                        let (ci, cj) = (vs[i as int], vs[j as int]);
                        assert(ci.positions_in_range() && cj.positions_in_range());
                        if !ci.entered() && !cj.entered() {
                            if ci.path@.len() < 2 {
                                assert(vs[j as int].entered());
                            }
                            if cj.path@.len() < 2 {
                                assert(vs[i as int].entered());
                            }
                            assert(point_in_range(ci.path@[1]));
                            assert(point_in_range(cj.path@[1]));
                        }
                    }
                    if has_priority(other, car) {
                        if collision_ahead(car, other, controller) {
                            assert(blocks(vs, j as int, i as int, *controller));
                            stop = true;
                            break;
                        }
                    }
                }
            }
            j = j + 1;
        }
    }
    stop
}

/// One frame for every vehicle: first decide, for each vehicle in order,
/// whether it must wait (see `must_stop`); then, walking the list, move each
/// vehicle whose decision lets it go one step along its path, and drop every
/// vehicle that reaches the end of its path, counting it in `completed_count`
/// (see `settle`).
pub fn update_vehicles(
    vehicles: &mut Vec<Vehicle>,
    controller: &TrafficLightController,
    completed_count: &mut usize,
)
    requires
        frame_ready(old(vehicles)@),
        *old(completed_count) + old(vehicles)@.len() <= usize::MAX,
    ensures
        final(vehicles)@ == settle(
            old(vehicles)@,
            stop_flags(old(vehicles)@, *controller),
            old(vehicles)@.len(),
        ).0,
        *final(completed_count) == *old(completed_count) + settle(
            old(vehicles)@,
            stop_flags(old(vehicles)@, *controller),
            old(vehicles)@.len(),
        ).1,
{
    let ghost vs = vehicles@;
    let ghost c0 = *completed_count;
    let num_vehicles = vehicles.len();
    let mut should_stop_vec: Vec<bool> = Vec::new();

    for i in 0..num_vehicles
        invariant
            vs == vehicles@,
            num_vehicles == vs.len(),
            frame_ready(vs),
            should_stop_vec@ =~= stop_flags(vs, *controller).take(i as int),
    {
        let stop = must_stop_at(vehicles, i, controller);
        should_stop_vec.push(stop);
    }
    let ghost flags = stop_flags(vs, *controller);
    assert(should_stop_vec@ =~= flags);

    // Move vehicles and clean up finished ones
    let mut i: usize = 0;
    let mut o: usize = 0;
    while i < vehicles.len()
        invariant
            0 <= o <= vs.len(),
            num_vehicles == vs.len(),
            should_stop_vec@ == flags,
            flags.len() == vs.len(),
            frame_ready(vs),
            vehicles@ =~= settle(vs, flags, o as nat).0 + vs.subrange(o as int, vs.len() as int),
            i == settle(vs, flags, o as nat).0.len(),
            settle(vs, flags, o as nat).0.len() + settle(vs, flags, o as nat).1 == o,
            *completed_count == c0 + settle(vs, flags, o as nat).1,
            c0 + vs.len() <= usize::MAX,
        decreases vs.len() - o,
    {
        let ghost kept = settle(vs, flags, o as nat).0;
        let ghost done = settle(vs, flags, o as nat).1;
        let ghost v0 = vs[o as int];
        assert(vehicles@[i as int] == v0);
        assert(v0.positions_in_range() && !v0.finished());
        {
            let car = &mut vehicles[i];
            car.is_stopped = should_stop_vec[o];
            if !car.is_stopped {
                let target = car.path[car.current_waypoint];
                assert(point_in_range(v0.path@[v0.current_waypoint as int]));
                let (nx, ny, reached) = move_toward(car.x, car.y, target);
                car.x = nx;
                car.y = ny;
                if reached {
                    let path_len = car.path.len();
                    assert(car.current_waypoint < path_len);
                    car.current_waypoint = car.current_waypoint + 1;
                }
            }
        }
        assert(vehicles@[i as int] == advanced(v0, flags[o as int]));
        assert(settle(vs, flags, (o + 1) as nat) == {
            let v = advanced(vs[o as int], flags[o as int]);
            if v.finished() {
                (kept, done + 1)
            } else {
                (kept.push(v), done)
            }
        });
        if vehicles[i].current_waypoint >= vehicles[i].path.len() {
            let _finished_vehicle = vehicles.remove(i);
            *completed_count = *completed_count + 1;
        } else {
            i = i + 1;
        }
        o = o + 1;
    }
    assert(vs.subrange(vs.len() as int, vs.len() as int) =~= Seq::<Vehicle>::empty());
}

/// Vehicle ids strictly increase along the list.
pub open spec fn ids_increasing(vs: Seq<Vehicle>) -> bool {
    forall|i: int, j: int| 0 <= i < j < vs.len() ==> #[trigger] vs[i].id < #[trigger] vs[j].id
}

/// One frame keeps a vehicle's identity, route and path; a waiting vehicle
/// keeps its place, a moving one moves no farther than `SPEED` and at most
/// one waypoint on; coordinates stay in range.
pub proof fn lemma_advanced(v: Vehicle, stop: bool)
    requires
        v.positions_in_range(),
        !v.finished(),
    ensures
        ({
            let a = advanced(v, stop);
            &&& a.positions_in_range()
            &&& v.well_placed() ==> a.well_placed()
            &&& a.id == v.id
            &&& a.spawn_direction == v.spawn_direction
            &&& a.route == v.route
            &&& a.path == v.path
            &&& a.is_stopped == stop
            &&& stop ==> a.x == v.x && a.y == v.y && a.current_waypoint == v.current_waypoint
            &&& !stop ==> {
                &&& -SPEED <= a.x - v.x <= SPEED
                &&& -SPEED <= a.y - v.y <= SPEED
                &&& (a.x - v.x) * (a.x - v.x) + (a.y - v.y) * (a.y - v.y) <= SPEED * SPEED
                &&& (a.current_waypoint == v.current_waypoint || a.current_waypoint
                    == v.current_waypoint + 1)
            }
        }),
{
    assert(v.path@.len() == v.path.len());
    if !stop {
        let target = v.path@[v.current_waypoint as int];
        assert(point_in_range(target));
        crate::geometry::lemma_step_toward_bounded(
            v.x as int,
            v.y as int,
            target.0 as int,
            target.1 as int,
        );
    }
}

/// A red lamp holds its approach: when the approach shows red and is not the
/// one in its own yellow phase (so every approach during all-red, and every
/// approach but the active one otherwise), a vehicle within the red stopping
/// radius of its stop line is held there.
pub proof fn lemma_red_light_holds(ctrl: TrafficLightController, dir: Direction, d2: int)
    requires
        ctrl.aspect_for(dir) == Aspect::Red,
        !(ctrl.state == LightState::Yellow && ctrl.active_direction == dir),
        d2 <= RED_STOP_RADIUS * RED_STOP_RADIUS,
    ensures
        held_by_light(ctrl, dir, d2),
{
}

/// What the light does to a vehicle of approach `dir` at squared distance
/// `d2` from its stop line: a green lamp never holds it; in its own yellow
/// phase it is held between 15 px and 45 px from the line (closer, it is
/// committed and drives on); a red lamp holds it within 25 px of the line.
pub proof fn lemma_light_hold_bands(ctrl: TrafficLightController, dir: Direction, d2: int)
    ensures
        ctrl.aspect_for(dir) == Aspect::Green ==> !held_by_light(ctrl, dir, d2),
        ctrl.state == LightState::Yellow && ctrl.active_direction == dir ==> (held_by_light(ctrl, dir, d2)
            <==> (15 * crate::geometry::UNITS_PER_PIXEL) * (15 * crate::geometry::UNITS_PER_PIXEL) < d2
            <= (45 * crate::geometry::UNITS_PER_PIXEL) * (45 * crate::geometry::UNITS_PER_PIXEL)),
        ctrl.aspect_for(dir) == Aspect::Red && !(ctrl.state == LightState::Yellow
            && ctrl.active_direction == dir) ==> (held_by_light(ctrl, dir, d2) <==> d2 <= (25
            * crate::geometry::UNITS_PER_PIXEL) * (25 * crate::geometry::UNITS_PER_PIXEL)),
{
}

/// All-red stops every approach: each one shows red, and a vehicle within
/// the red stopping radius of its stop line is held there.
pub proof fn lemma_all_red_holds_every_approach(ctrl: TrafficLightController, dir: Direction, d2: int)
    requires
        ctrl.state == LightState::AllRed,
        d2 <= RED_STOP_RADIUS * RED_STOP_RADIUS,
    ensures
        ctrl.aspect_for(dir) == Aspect::Red,
        held_by_light(ctrl, dir, d2),
{
    lemma_red_light_holds(ctrl, dir, d2);
}

/// In a frame, a vehicle waiting at its stop line in front of a red lamp
/// (not its own yellow) within the red stopping radius stays where it is,
/// at the same waypoint, marked stopped.
pub proof fn lemma_frame_red_stop(vs: Seq<Vehicle>, ctrl: TrafficLightController, o: int)
    requires
        frame_ready(vs),
        0 <= o < vs.len(),
        vs[o].current_waypoint == 1,
        ctrl.aspect_for(vs[o].spawn_direction) == Aspect::Red,
        !(ctrl.state == LightState::Yellow && ctrl.active_direction == vs[o].spawn_direction),
        vs[o].stop_line_dist_sq() <= RED_STOP_RADIUS * RED_STOP_RADIUS,
    ensures
        stop_flags(vs, ctrl)[o],
        exists|k: int|
            0 <= k < settle(vs, stop_flags(vs, ctrl), vs.len()).0.len() && #[trigger] settle(
                vs,
                stop_flags(vs, ctrl),
                vs.len(),
            ).0[k] == advanced(vs[o], true),
        advanced(vs[o], true).x == vs[o].x,
        advanced(vs[o], true).y == vs[o].y,
        advanced(vs[o], true).current_waypoint == 1,
        advanced(vs[o], true).is_stopped,
{
    lemma_red_light_holds(ctrl, vs[o].spawn_direction, vs[o].stop_line_dist_sq());
    assert(!vs[o].finished());
    assert(must_stop(vs, o, ctrl));
    lemma_wait_honored(vs, ctrl, o);
}

/// A lone car's one-frame prediction is where the frame takes it: unless it
/// leaves the map, the vehicle the frame keeps stands at the predicted point,
/// holding at the light exactly when the prediction does.
pub proof fn lemma_lone_prediction_matches_frame(o: Vehicle, ctrl: TrafficLightController)
    requires
        o.positions_in_range(),
        !o.finished(),
    ensures
        ({
            let vs = seq![o];
            let kept = settle(vs, stop_flags(vs, ctrl), 1).0;
            let p = predicted(o, 1, ctrl, true);
            kept.len() == 0 || p == (kept[0].x as int, kept[0].y as int)
        }),
{
    let vs = seq![o];
    let flags = stop_flags(vs, ctrl);
    assert(vs[0] == o);
    assert(o.path@.len() == o.path.len());
    assert(!exists|j: int| 0 <= j < vs.len() && #[trigger] blocks(vs, j, 0, ctrl));
    lemma_advanced(o, flags[0]);
    let target = o.path@[o.current_waypoint as int];
    assert(point_in_range(target));
    crate::geometry::lemma_step_toward_bounded(o.x as int, o.y as int, target.0 as int, target.1 as int);
    assert(settle(vs, flags, 0).0 =~= Seq::<Vehicle>::empty());
    let a = advanced(o, flags[0]);
    assert(flags[0] == must_stop(vs, 0, ctrl));
    let hold = o.current_waypoint == 1 && held_by_light(ctrl, o.spawn_direction, o.stop_line_dist_sq());
    assert(flags[0] == hold);
    let (nx, ny, reached) = step_toward(o.x as int, o.y as int, target.0 as int, target.1 as int);
    let nwp = if reached { o.current_waypoint + 1 } else { o.current_waypoint as int };
    assert(coast(o.path@, o.spawn_direction, ctrl, nx, ny, nwp, 0) == (nx, ny));
    if hold {
        assert(predicted(o, 1, ctrl, true) == (o.x as int, o.y as int));
    } else {
        assert(predicted(o, 1, ctrl, true) == (nx, ny));
    }
    if !a.finished() {
        assert(settle(vs, flags, 1).0 =~= seq![a]);
    }
}

/// What a frame keeps: each kept vehicle is a vehicle `vs[j]` of the list
/// advanced by its own decision `flags[j]`; kept vehicles are well placed and
/// on their way; increasing ids stay increasing.
pub proof fn lemma_settle_shape(vs: Seq<Vehicle>, flags: Seq<bool>, m: nat)
    requires
        m <= vs.len(),
        flags.len() == vs.len(),
        all_on_their_way(vs),
    ensures
        ({
            let kept = settle(vs, flags, m).0;
            &&& kept.len() + settle(vs, flags, m).1 == m
            &&& all_on_their_way(kept)
            &&& forall|k: int|
                0 <= k < kept.len() ==> exists|j: int|
                    0 <= j < m && #[trigger] kept[k] == advanced(vs[j], flags[j])
            &&& ids_increasing(vs) ==> ids_increasing(kept)
        }),
    decreases m,
{
    lemma_settle_counts(vs, flags, m);
    if m > 0 {
        lemma_settle_shape(vs, flags, (m - 1) as nat);
        let (kept, done) = settle(vs, flags, (m - 1) as nat);
        lemma_settle_counts(vs, flags, (m - 1) as nat);
        let v = advanced(vs[m - 1], flags[m - 1]);
        assert(vs[m - 1].well_placed() && !vs[m - 1].finished());
        lemma_advanced(vs[m - 1], flags[m - 1]);
        if !v.finished() {
            let nk = kept.push(v);
            assert forall|k: int| 0 <= k < nk.len() implies exists|j: int|
                0 <= j < m && #[trigger] nk[k] == advanced(vs[j], flags[j]) by {
                if k < kept.len() {
                    let j = choose|j: int| 0 <= j < m - 1 && #[trigger] kept[k] == advanced(vs[j], flags[j]);
                    assert(nk[k] == advanced(vs[j], flags[j]));
                } else {
                    assert(nk[k] == advanced(vs[m - 1], flags[m - 1]));
                }
            }
            assert(all_on_their_way(nk)) by {
                assert forall|k: int| 0 <= k < nk.len() implies #[trigger] nk[k].well_placed()
                    && !nk[k].finished() by {
                    if k < kept.len() {
                        assert(kept[k].well_placed());
                    }
                }
            }
            if ids_increasing(vs) {
                assert forall|a: int, b: int| 0 <= a < b < nk.len() implies #[trigger] nk[a].id
                    < #[trigger] nk[b].id by {
                    if b < kept.len() {
                        assert(kept[a].id < kept[b].id);
                    } else {
                        let j = choose|j: int| 0 <= j < m - 1 && #[trigger] kept[a] == advanced(vs[j], flags[j]);
                        assert(vs[j].well_placed());
                        lemma_advanced(vs[j], flags[j]);
                        assert(vs[j].id < vs[m - 1].id);
                    }
                }
            }
        }
    }
}

/// A frame keeps every vehicle that has not reached the end of its path and
/// drops the others, so the vehicles kept and dropped add up to the vehicles
/// there were; the kept ones can take part in the next frame, keep their
/// relative order (increasing ids stay increasing), and each is a vehicle of
/// the list after one step or one wait.
pub proof fn lemma_frame_conserves_vehicles(vs: Seq<Vehicle>, ctrl: TrafficLightController)
    requires
        all_on_their_way(vs),
    ensures
        ({
            let (kept, done) = settle(vs, stop_flags(vs, ctrl), vs.len());
            &&& kept.len() + done == vs.len()
            &&& all_on_their_way(kept)
            &&& ids_increasing(vs) ==> ids_increasing(kept)
            &&& forall|k: int|
                0 <= k < kept.len() ==> exists|j: int|
                    0 <= j < vs.len() && #[trigger] kept[k] == advanced(
                        vs[j],
                        stop_flags(vs, ctrl)[j],
                    )
        }),
{
    lemma_settle_shape(vs, stop_flags(vs, ctrl), vs.len());
}

/// Moving more vehicles only adds to the kept list: the vehicles kept from
/// the first `m1` are the first ones kept from the first `m2`.
pub proof fn lemma_settle_prefix(vs: Seq<Vehicle>, flags: Seq<bool>, m1: nat, m2: nat)
    requires
        m1 <= m2,
    ensures
        settle(vs, flags, m1).0.len() <= settle(vs, flags, m2).0.len(),
        forall|k: int|
            0 <= k < settle(vs, flags, m1).0.len() ==> #[trigger] settle(vs, flags, m2).0[k]
                == settle(vs, flags, m1).0[k],
    decreases m2,
{
    if m1 < m2 {
        lemma_settle_prefix(vs, flags, m1, (m2 - 1) as nat);
    }
}

/// A vehicle that must wait (held by the light at its stop line, or blocked
/// by a vehicle that goes first) keeps its position and waypoint through the
/// frame and is marked stopped.
pub proof fn lemma_wait_honored(vs: Seq<Vehicle>, ctrl: TrafficLightController, o: int)
    requires
        frame_ready(vs),
        0 <= o < vs.len(),
        must_stop(vs, o, ctrl),
    ensures
        exists|k: int|
            0 <= k < settle(vs, stop_flags(vs, ctrl), vs.len()).0.len() && #[trigger] settle(
                vs,
                stop_flags(vs, ctrl),
                vs.len(),
            ).0[k] == advanced(vs[o], true),
        advanced(vs[o], true).x == vs[o].x,
        advanced(vs[o], true).y == vs[o].y,
        advanced(vs[o], true).current_waypoint == vs[o].current_waypoint,
        advanced(vs[o], true).id == vs[o].id,
        advanced(vs[o], true).is_stopped,
{
    let flags = stop_flags(vs, ctrl);
    assert(flags[o]);
    assert(vs[o].positions_in_range() && !vs[o].finished());
    lemma_advanced(vs[o], true);
    let kept = settle(vs, flags, (o + 1) as nat).0;
    let before = settle(vs, flags, o as nat).0;
    assert(kept == before.push(advanced(vs[o], true)));
    lemma_settle_prefix(vs, flags, (o + 1) as nat, vs.len());
    let k = kept.len() - 1;
    assert(settle(vs, flags, vs.len()).0[k] == kept[k]);
}

/// Priority is a strict choice: no vehicle goes before itself, of two
/// vehicles at most one goes first, and of two with different ids exactly one.
pub proof fn lemma_priority_strict(a: Vehicle, b: Vehicle)
    ensures
        !priority_over(a, a),
        !(priority_over(a, b) && priority_over(b, a)),
        a.id != b.id ==> priority_over(a, b) || priority_over(b, a),
{
}

/// Number of vehicles of approach `d` that have not yet passed their stop line.
pub open spec fn waiting_in_lane(vs: Seq<Vehicle>, d: Direction) -> nat
    decreases vs.len(),
{
    if vs.len() == 0 {
        0
    } else {
        let v = vs.last();
        waiting_in_lane(vs.drop_last(), d) + if v.spawn_direction == d && v.current_waypoint <= 1 {
            1nat
        } else {
            0nat
        }
    }
}

/// The queue of every approach, in slot order North, East, South, West.
pub open spec fn lane_counts(vs: Seq<Vehicle>) -> Seq<usize> {
    seq![
        waiting_in_lane(vs, Direction::North) as usize,
        waiting_in_lane(vs, Direction::East) as usize,
        waiting_in_lane(vs, Direction::South) as usize,
        waiting_in_lane(vs, Direction::West) as usize,
    ]
}

proof fn lemma_waiting_bounded(vs: Seq<Vehicle>, d: Direction)
    ensures
        waiting_in_lane(vs, d) <= vs.len(),
    decreases vs.len(),
{
    if vs.len() > 0 {
        lemma_waiting_bounded(vs.drop_last(), d);
    }
}

/// How many vehicles of each approach wait before their stop line, in slot
/// order North, East, South, West.
pub fn queue_lengths(vehicles: &[Vehicle]) -> (q: [usize; 4])
    ensures
        q@ == lane_counts(vehicles@),
        forall|d: Direction| #[trigger] q@[d.index() as int] == waiting_in_lane(vehicles@, d),
{
    let mut q: [usize; 4] = [0, 0, 0, 0];
    let mut i: usize = 0;
    while i < vehicles.len()
        invariant
            i <= vehicles@.len(),
            q@.len() == 4,
            forall|d: Direction| #[trigger]
                q@[d.index() as int] == waiting_in_lane(vehicles@.take(i as int), d),
        decreases vehicles@.len() - i,
    {
        let ghost before = q@;
        assert(vehicles@.take(i + 1).drop_last() =~= vehicles@.take(i as int));
        let v = &vehicles[i];
        if v.current_waypoint <= 1 {
            let k = v.spawn_direction.to_index();
            proof {
                lemma_waiting_bounded(vehicles@.take(i as int), v.spawn_direction);
                assert(q@[v.spawn_direction.index() as int] <= i);
            }
            q[k] = q[k] + 1;
            assert forall|d: Direction| #[trigger]
                q@[d.index() as int] == waiting_in_lane(vehicles@.take(i + 1), d) by {
                crate::direction::lemma_index_identifies(d, v.spawn_direction);
                assert(before[d.index() as int] == waiting_in_lane(vehicles@.take(i as int), d));
            }
        } else {
            assert forall|d: Direction| #[trigger]
                q@[d.index() as int] == waiting_in_lane(vehicles@.take(i + 1), d) by {
                assert(before[d.index() as int] == waiting_in_lane(vehicles@.take(i as int), d));
            }
        }
        i = i + 1;
    }
    assert(vehicles@.take(vehicles@.len() as int) =~= vehicles@);
    assert(q@[Direction::North.index() as int] == waiting_in_lane(vehicles@, Direction::North));
    assert(q@[Direction::East.index() as int] == waiting_in_lane(vehicles@, Direction::East));
    assert(q@[Direction::South.index() as int] == waiting_in_lane(vehicles@, Direction::South));
    assert(q@[Direction::West.index() as int] == waiting_in_lane(vehicles@, Direction::West));
    assert(q@ =~= lane_counts(vehicles@));
    q
}

/// The length of a sum of two vectors is at most the sum of their lengths
/// (in squared form).
proof fn lemma_triangle(ux: int, uy: int, vx: int, vy: int, a: int, b: int)
    requires
        a >= 0,
        b >= 0,
        ux * ux + uy * uy <= a * a,
        vx * vx + vy * vy <= b * b,
    ensures
        (ux + vx) * (ux + vx) + (uy + vy) * (uy + vy) <= (a + b) * (a + b),
{
    let dot = ux * vx + uy * vy;
    let nu = ux * ux + uy * uy;
    let nv = vx * vx + vy * vy;
    let cross = ux * vy - uy * vx;
    let p = ux * vx;
    let q = uy * vy;
    let r = ux * vy;
    let t = uy * vx;
    assert((ux * ux) * (vx * vx) == p * p) by (nonlinear_arith)
        requires
            p == ux * vx,
    ;
    assert((ux * ux) * (vy * vy) == r * r) by (nonlinear_arith)
        requires
            r == ux * vy,
    ;
    assert((uy * uy) * (vx * vx) == t * t) by (nonlinear_arith)
        requires
            t == uy * vx,
    ;
    assert((uy * uy) * (vy * vy) == q * q) by (nonlinear_arith)
        requires
            q == uy * vy,
    ;
    assert(p * q == r * t) by (nonlinear_arith)
        requires
            p == ux * vx,
            q == uy * vy,
            r == ux * vy,
            t == uy * vx,
    ;
    let aa = ux * ux;
    let bb = uy * uy;
    let cc = vx * vx;
    let dd = vy * vy;
    assert((aa + bb) * (cc + dd) == aa * cc + aa * dd + bb * cc + bb * dd) by (nonlinear_arith);
    assert(nu * nv == p * p + r * r + t * t + q * q);
    assert(dot * dot == p * p + 2 * (p * q) + q * q) by (nonlinear_arith)
        requires
            dot == p + q,
    ;
    assert(cross * cross == r * r - 2 * (r * t) + t * t) by (nonlinear_arith)
        requires
            cross == r - t,
    ;
    assert(nu * nv - dot * dot == cross * cross);
    assert(cross * cross >= 0) by (nonlinear_arith);
    assert(nu >= 0 && nv >= 0) by (nonlinear_arith)
        requires
            nu == ux * ux + uy * uy,
            nv == vx * vx + vy * vy,
    ;
    assert(nu * nv <= (a * a) * (b * b)) by (nonlinear_arith)
        requires
            0 <= nu <= a * a,
            0 <= nv <= b * b,
    ;
    assert(dot <= a * b) by (nonlinear_arith)
        requires
            dot * dot <= (a * a) * (b * b),
            a >= 0,
            b >= 0,
    ;
    assert((ux + vx) * (ux + vx) + (uy + vy) * (uy + vy) == nu + 2 * dot + nv) by (nonlinear_arith)
        requires
            dot == ux * vx + uy * vy,
            nu == ux * ux + uy * uy,
            nv == vx * vx + vy * vy,
    ;
    assert((a + b) * (a + b) == a * a + 2 * (a * b) + b * b) by (nonlinear_arith);
}

/// A coasting run of `n` frames ends no farther than `n * SPEED` from where it began.
pub proof fn lemma_coast_reach(
    path: Seq<(i64, i64)>,
    dir: Direction,
    ctrl: TrafficLightController,
    x: int,
    y: int,
    wp: int,
    n: nat,
)
    ensures
        ({
            let (ex, ey) = coast(path, dir, ctrl, x, y, wp, n);
            (ex - x) * (ex - x) + (ey - y) * (ey - y) <= (SPEED * n) * (SPEED * n)
        }),
    decreases n,
{
    if n == 0 || wp >= path.len() || (wp == 1 && held_by_light(
        ctrl,
        dir,
        dist_sq(path[1].0 as int, path[1].1 as int, x, y),
    )) {
        assert(coast(path, dir, ctrl, x, y, wp, n) == (x, y));
        assert((SPEED * n) * (SPEED * n) >= 0) by (nonlinear_arith);
        assert((x - x) * (x - x) + (y - y) * (y - y) == 0) by (nonlinear_arith);
    } else {
        let target = path[wp];
        crate::geometry::lemma_step_toward_bounded(x, y, target.0 as int, target.1 as int);
        let (nx, ny, reached) = step_toward(x, y, target.0 as int, target.1 as int);
        let nwp = if reached {
            wp + 1
        } else {
            wp
        };
        lemma_coast_reach(path, dir, ctrl, nx, ny, nwp, (n - 1) as nat);
        let (ex, ey) = coast(path, dir, ctrl, nx, ny, nwp, (n - 1) as nat);
        assert(SPEED * (n - 1) >= 0) by (nonlinear_arith)
            requires
                n >= 1,
        ;
        lemma_triangle(ex - nx, ey - ny, nx - x, ny - y, SPEED * (n - 1), SPEED as int);
        assert(SPEED * (n - 1) + SPEED == SPEED * n) by (nonlinear_arith);
        assert(coast(path, dir, ctrl, x, y, wp, n) == coast(path, dir, ctrl, nx, ny, nwp, (n - 1) as nat));
        let ux = ex - nx;
        let uy = ey - ny;
        let vx = nx - x;
        let vy = ny - y;
        let m = SPEED * (n - 1);
        assert((ex - x) * (ex - x) + (ey - y) * (ey - y) <= (SPEED * n) * (SPEED * n)) by (nonlinear_arith)
            requires
                (ux + vx) * (ux + vx) + (uy + vy) * (uy + vy) <= (m + SPEED) * (m + SPEED),
                ux + vx == ex - x,
                uy + vy == ey - y,
                m + SPEED == SPEED * n,
        ;
    }
}

/// A prediction `steps` frames ahead lies within `steps * SPEED` of the
/// vehicle, and a prediction zero frames ahead is the vehicle's position.
pub proof fn lemma_prediction_within_reach(
    car: Vehicle,
    steps: nat,
    ctrl: TrafficLightController,
    assume_moving: bool,
)
    ensures
        ({
            let (px, py) = predicted(car, steps, ctrl, assume_moving);
            (px - car.x) * (px - car.x) + (py - car.y) * (py - car.y) <= (SPEED * steps) * (
            SPEED * steps)
        }),
        steps == 0 ==> predicted(car, steps, ctrl, assume_moving) == (car.x as int, car.y as int),
{
    if !assume_moving && car.is_stopped {
        assert((SPEED * steps) * (SPEED * steps) >= 0) by (nonlinear_arith);
        assert((car.x - car.x) * (car.x - car.x) + (car.y - car.y) * (car.y - car.y) == 0)
            by (nonlinear_arith);
    } else {
        lemma_coast_reach(
            car.path@,
            car.spawn_direction,
            ctrl,
            car.x as int,
            car.y as int,
            car.current_waypoint as int,
            steps,
        );
    }
}

} // verus!
