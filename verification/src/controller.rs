use vstd::prelude::*;
use crate::direction::Direction;

verus! {

/// Length of the visible part of each approach lane, in pixels.
pub const LANE_LENGTH_PX: usize = 340;

/// Length of a vehicle, in pixels.
pub const VEHICLE_LENGTH_PX: usize = 30;

/// Gap kept between two queued vehicles, in pixels.
pub const SAFETY_GAP_PX: usize = 15;

/// Number of vehicles a lane holds before it counts as congested:
/// `LANE_LENGTH_PX / (VEHICLE_LENGTH_PX + SAFETY_GAP_PX)`, rounded down.
pub const QUEUE_CAPACITY: usize = 7;

/// Base length of a green phase, in microseconds.
pub const GREEN_TIME: i64 = 5000000;

/// Time added, once per green phase, when the green lane is congested.
pub const GREEN_EXTENSION: i64 = 3000000;

/// A congested green lane is extended once less than this much green remains.
pub const EXTEND_WHEN_BELOW: i64 = 2000000;

/// An empty green lane yields to waiting lanes once less than this much green remains.
pub const EARLY_END_WHEN_BELOW: i64 = 3000000;

/// Length of the yellow phase, in microseconds.
pub const YELLOW_TIME: i64 = 1500000;

/// Length of the all-red clearing phase, in microseconds.
pub const ALL_RED_TIME: i64 = 1000000;

/// The capacity is the number of vehicle-plus-gap slots that fit in a lane.
pub proof fn lemma_capacity_formula()
    ensures
        QUEUE_CAPACITY as int == (LANE_LENGTH_PX as int) / (VEHICLE_LENGTH_PX + SAFETY_GAP_PX),
{
    assert(340int / 45int == 7) by (nonlinear_arith);
}

/// Phase of the controller.
#[derive(Debug, Clone, Copy, PartialEq, Eq, Structural)]
pub enum LightState {
    Green,
    Yellow,
    AllRed,
}

impl LightState {
    /// The phase that follows this one.
    pub open spec fn following(self) -> LightState {
        match self {
            LightState::Green => LightState::Yellow,
            LightState::Yellow => LightState::AllRed,
            LightState::AllRed => LightState::Green,
        }
    }
}

/// Which lamp of an approach's signal head is lit: the lights use red and
/// green only.
#[derive(Debug, Clone, Copy, PartialEq, Eq, Structural)]
pub enum Aspect {
    Red,
    Green,
}

/// The four-phase controller: one approach at a time gets green, followed by
/// yellow and an all-red clearing phase.
#[derive(Debug, Clone, Copy, PartialEq, Eq, Structural)]
pub struct TrafficLightController {
    /// The approach that has (or last had) the green light.
    pub active_direction: Direction,
    pub state: LightState,
    /// Time left in the current phase, in microseconds.
    pub timer: i64,
    /// The current green phase has already been extended.
    pub extended: bool,
    /// The approach that gets green after the current yellow and all-red phases.
    pub next_direction: Direction,
}

/// Queue length of approach `d` in a four-slot queue array.
pub open spec fn lane_queue(q: Seq<usize>, d: Direction) -> int {
    q[d.index() as int] as int
}

/// `d` is a red approach (not `green`) whose queue reached capacity.
pub open spec fn congested_red(green: Direction, q: Seq<usize>, d: Direction) -> bool {
    d != green && lane_queue(q, d) >= QUEUE_CAPACITY
}

/// Some red approach is congested.
pub open spec fn any_congested_red(green: Direction, q: Seq<usize>) -> bool {
    exists|d: Direction| #[trigger] congested_red(green, q, d)
}

/// Scanning the approaches with slot below `n` in order: the congested red
/// approach with the strictly longest queue seen first.
pub open spec fn most_congested_among(green: Direction, q: Seq<usize>, n: nat) -> Option<Direction>
    decreases n,
{
    if n == 0 {
        None
    } else {
        let best = most_congested_among(green, q, (n - 1) as nat);
        let d = Direction::at_index((n - 1) as nat);
        let best_q = match best {
            Some(b) => lane_queue(q, b),
            None => 0,
        };
        if congested_red(green, q, d) && lane_queue(q, d) > best_q {
            Some(d)
        } else {
            best
        }
    }
}

/// Going clockwise from the green approach: the first approach with a
/// waiting vehicle, or the clockwise neighbour when nobody waits.
pub open spec fn first_waiting_after(green: Direction, q: Seq<usize>) -> Direction {
    let d1 = green.clockwise();
    let d2 = d1.clockwise();
    let d3 = d2.clockwise();
    if lane_queue(q, d1) > 0 {
        d1
    } else if lane_queue(q, d2) > 0 {
        d2
    } else if lane_queue(q, d3) > 0 {
        d3
    } else {
        d1
    }
}

/// The approach chosen to get the next green after `green`.
pub open spec fn next_green(green: Direction, q: Seq<usize>) -> Direction {
    match most_congested_among(green, q, 4) {
        Some(d) => d,
        None => first_waiting_after(green, q),
    }
}

/// What the scan finds: `None` when no congested red approach has a slot
/// below `n`, else one of them whose queue is the longest, first on a tie.
pub proof fn lemma_most_congested(green: Direction, q: Seq<usize>, n: nat)
    requires
        n <= 4,
        q.len() == 4,
    ensures
        most_congested_among(green, q, n) is None <==> forall|d: Direction|
            d.index() < n ==> !#[trigger] congested_red(green, q, d),
        most_congested_among(green, q, n) matches Some(b) ==> {
            &&& b.index() < n
            &&& congested_red(green, q, b)
            &&& forall|d: Direction| #[trigger]
                congested_red(green, q, d) && d.index() < n ==> lane_queue(q, d) < lane_queue(q, b)
                    || (lane_queue(q, d) == lane_queue(q, b) && b.index() <= d.index())
        },
        n == 4 ==> (most_congested_among(green, q, n) is None <==> !any_congested_red(green, q)),
    decreases n,
{
    if n > 0 {
        lemma_most_congested(green, q, (n - 1) as nat);
        let d = Direction::at_index((n - 1) as nat);
        assert(d.index() == n - 1);
        assert forall|e: Direction| e.index() == n - 1 implies e == d by {}
    }
    if n == 4 {
        if any_congested_red(green, q) {
            let w = choose|d: Direction| #[trigger] congested_red(green, q, d);
            assert(w.index() < 4);
        }
    }
}

impl TrafficLightController {
    /// Some approach other than the green one has a waiting vehicle.
    pub open spec fn others_waiting(self, q: Seq<usize>) -> bool {
        exists|i: int| 0 <= i < 4 && i != self.active_direction.index() && #[trigger] q[i] > 0
    }

    /// The controller after `dt` microseconds with the given queue lengths.
    pub open spec fn after_tick(self, dt: int, q: Seq<usize>) -> TrafficLightController {
        let t = self.timer - dt;
        match self.state {
            LightState::Green => {
                let active_q = lane_queue(q, self.active_direction);
                let extend = active_q >= QUEUE_CAPACITY && !self.extended && t < EXTEND_WHEN_BELOW;
                let t2 = if extend {
                    t + GREEN_EXTENSION
                } else {
                    t
                };
                let extended = self.extended || extend;
                if (active_q == 0 && self.others_waiting(q) && t2 < EARLY_END_WHEN_BELOW) || t2 <= 0 {
                    TrafficLightController {
                        state: LightState::Yellow,
                        timer: YELLOW_TIME,
                        extended,
                        next_direction: next_green(self.active_direction, q),
                        ..self
                    }
                } else {
                    TrafficLightController { timer: t2 as i64, extended, ..self }
                }
            },
            LightState::Yellow => {
                if t <= 0 {
                    TrafficLightController { state: LightState::AllRed, timer: ALL_RED_TIME, ..self }
                } else {
                    TrafficLightController { timer: t as i64, ..self }
                }
            },
            LightState::AllRed => {
                if t <= 0 {
                    TrafficLightController {
                        active_direction: self.next_direction,
                        state: LightState::Green,
                        timer: GREEN_TIME,
                        extended: false,
                        ..self
                    }
                } else {
                    TrafficLightController { timer: t as i64, ..self }
                }
            },
        }
    }

    /// The lamp lit for approach `dir`: green for the active approach during
    /// its green phase; red otherwise, so the yellow and all-red clearing
    /// phases show red everywhere.
    pub open spec fn aspect_for(self, dir: Direction) -> Aspect {
        if self.state == LightState::Green && self.active_direction == dir {
            Aspect::Green
        } else {
            Aspect::Red
        }
    }

    /// The controller's standing invariant: the timer lies within a phase's
    /// length, and outside green the next approach differs from the last green one.
    pub open spec fn wf(self) -> bool {
        &&& 0 < self.timer <= GREEN_TIME
        &&& self.state != LightState::Green ==> self.next_direction != self.active_direction
    }

    /// The controller at start-up.
    pub open spec fn new_state() -> TrafficLightController {
        TrafficLightController {
            active_direction: Direction::North,
            state: LightState::Green,
            timer: GREEN_TIME,
            extended: false,
            next_direction: Direction::North,
        }
    }

    /// Green for North, full base time, not extended.
    pub fn new() -> (r: TrafficLightController)
        ensures
            r == TrafficLightController::new_state(),
            r.active_direction == Direction::North,
            r.state == LightState::Green,
            r.timer == GREEN_TIME,
            !r.extended,
            r.next_direction == Direction::North,
            r.wf(),
    {
        TrafficLightController {
            active_direction: Direction::North,
            state: LightState::Green,
            timer: GREEN_TIME,
            extended: false,
            next_direction: Direction::North,
        }
    }

    /// The approach to give the next green: the red approach with the longest
    /// queue at or above capacity (the first in slot order on a tie), else the
    /// first approach clockwise from the green one with a waiting vehicle, else
    /// the clockwise neighbour.
    pub fn select_next_direction(&self, queue_lengths: &[usize; 4]) -> (r: Direction)
        ensures
            r == next_green(self.active_direction, queue_lengths@),
            r != self.active_direction,
            any_congested_red(self.active_direction, queue_lengths@) ==> {
                &&& congested_red(self.active_direction, queue_lengths@, r)
                &&& forall|d: Direction| #[trigger]
                    congested_red(self.active_direction, queue_lengths@, d) ==> lane_queue(queue_lengths@, d)
                        < lane_queue(queue_lengths@, r) || (lane_queue(queue_lengths@, d)
                        == lane_queue(queue_lengths@, r) && r.index() <= d.index())
            },
            !any_congested_red(self.active_direction, queue_lengths@) ==> r == first_waiting_after(self.active_direction, queue_lengths@),
            forall|d: Direction|
                d != self.active_direction && #[trigger] queue_lengths@[d.index() as int] >= QUEUE_CAPACITY
                    ==> queue_lengths@[r.index() as int] >= queue_lengths@[d.index() as int],
    {
        let ghost q = queue_lengths@;
        let mut max_q: usize = 0;
        let mut congested_dir: Option<Direction> = None;

        // Prioritize the most congested red lane.
        let capacity = QUEUE_CAPACITY;
        for i in 0..4
            invariant
                q == queue_lengths@,
                capacity == QUEUE_CAPACITY,
                congested_dir == most_congested_among(self.active_direction, q, i as nat),
                max_q == match congested_dir {
                    Some(b) => lane_queue(q, b),
                    None => 0,
                },
        {
            let dir = Direction::from_index(i);
            if dir != self.active_direction && queue_lengths[i] >= capacity {
                if queue_lengths[i] > max_q {
                    max_q = queue_lengths[i];
                    congested_dir = Some(dir);
                }
            }
        }
        proof {
            lemma_most_congested(self.active_direction, q, 4);
            assert forall|d: Direction|
                d != self.active_direction && #[trigger] q[d.index() as int] >= QUEUE_CAPACITY implies congested_red(
                self.active_direction,
                q,
                d,
            ) && d.index() < 4 by {}
        }
        match congested_dir {
            Some(dir) => dir,
            None => {
                // Otherwise, the first non-empty lane clockwise, if any.
                proof {
                    lemma_clockwise_steps(self.active_direction);
                }
                let d1 = self.active_direction.next();
                if queue_lengths[d1.to_index()] > 0 {
                    return d1;
                }
                let d2 = d1.next();
                if queue_lengths[d2.to_index()] > 0 {
                    return d2;
                }
                let d3 = d2.next();
                if queue_lengths[d3.to_index()] > 0 {
                    return d3;
                }
                d1
            },
        }
    }

    /// Advance the controller by `dt` microseconds, given the number of
    /// vehicles waiting in each lane (slot `Direction::index`).
    pub fn update(&mut self, dt: u32, queue_lengths: &[usize; 4])
        requires
            old(self).timer - dt >= i64::MIN,
        ensures
            *final(self) == old(self).after_tick(dt as int, queue_lengths@),
            old(self).state == LightState::Green && queue_lengths@[old(self).active_direction.index()
                as int] > 0 && old(self).timer - dt > 0 ==> final(self).state == LightState::Green,
    {
        let ghost q = queue_lengths@;
        let ghost start = *self;
        self.timer = self.timer - dt as i64;

        match self.state {
            LightState::Green => {
                let active_idx = self.active_direction.to_index();
                let active_q = queue_lengths[active_idx];
                let capacity = QUEUE_CAPACITY;

                // Dynamic congestion rule: extend a congested green once.
                if active_q >= capacity && !self.extended && self.timer < EXTEND_WHEN_BELOW {
                    self.timer = self.timer + GREEN_EXTENSION;
                    self.extended = true;
                }

                let mut other_has_vehicles = false;
                for i in 0..4
                    invariant
                        q == queue_lengths@,
                        active_idx == start.active_direction.index(),
                        other_has_vehicles <==> exists|j: int|
                            0 <= j < i && j != active_idx && #[trigger] q[j] > 0,
                {
                    if i != active_idx && queue_lengths[i] > 0 {
                        other_has_vehicles = true;
                    }
                }
                assert(other_has_vehicles == start.others_waiting(q));

                if (active_q == 0 && other_has_vehicles && self.timer < EARLY_END_WHEN_BELOW)
                    || self.timer <= 0 {
                    self.next_direction = self.select_next_direction(queue_lengths);
                    self.state = LightState::Yellow;
                    self.timer = YELLOW_TIME;
                }
            },
            LightState::Yellow => {
                if self.timer <= 0 {
                    self.state = LightState::AllRed;
                    self.timer = ALL_RED_TIME;
                }
            },
            LightState::AllRed => {
                if self.timer <= 0 {
                    self.active_direction = self.next_direction;
                    self.state = LightState::Green;
                    self.timer = GREEN_TIME;
                    self.extended = false;
                }
            },
        }
    }
}

/// Going clockwise one, two or three times from `d` lands on three distinct
/// approaches, none of them `d`.
proof fn lemma_clockwise_steps(d: Direction)
    ensures
        d.clockwise() != d,
        d.clockwise().clockwise() != d,
        d.clockwise().clockwise().clockwise() != d,
{
}

/// The lamp lit for approach `dir` (see `aspect_for`).
pub fn light_aspect(dir: Direction, controller: &TrafficLightController) -> (r: Aspect)
    ensures
        r == controller.aspect_for(dir),
{
    let is_active = controller.active_direction == dir;
    if controller.state == LightState::Green && is_active {
        Aspect::Green
    } else {
        Aspect::Red
    }
}

/// The dashboard's name for a phase.
pub open spec fn phase_name(state: LightState) -> Seq<char> {
    match state {
        LightState::Green => "GREEN"@,
        LightState::Yellow => "YELLOW"@,
        LightState::AllRed => "ALL RED (CLEARING)"@,
    }
}

/// The dashboard's label for the controller's phase.
pub fn state_label(state: LightState) -> (r: &'static str)
    ensures
        r@ == phase_name(state),
{
    match state {
        LightState::Green => "GREEN",
        LightState::Yellow => "YELLOW",
        LightState::AllRed => "ALL RED (CLEARING)",
    }
}

/// The dashboard's lane lamp for approach `dir`: green for the approach that
/// holds (or last held) the green, red for the others.
pub fn lane_indicator(dir: Direction, controller: &TrafficLightController) -> (r: Aspect)
    ensures
        r == (if controller.active_direction == dir {
            Aspect::Green
        } else {
            Aspect::Red
        }),
{
    if controller.active_direction == dir {
        Aspect::Green
    } else {
        Aspect::Red
    }
}

/// After any tick the time left in the phase is positive, and it never
/// exceeds the larger of its previous value and the base green time.
pub proof fn lemma_tick_timer_bounds(c: TrafficLightController, dt: int, q: Seq<usize>)
    requires
        dt >= 0,
        c.timer - dt >= i64::MIN,
        q.len() == 4,
    ensures
        0 < c.after_tick(dt, q).timer,
        c.after_tick(dt, q).timer <= c.timer || c.after_tick(dt, q).timer <= GREEN_TIME,
{
}

/// The controller's invariant holds from the start (see `new`) and every tick keeps it.
pub proof fn lemma_tick_keeps_wf(c: TrafficLightController, dt: int, q: Seq<usize>)
    requires
        c.wf(),
        dt >= 0,
        q.len() == 4,
    ensures
        c.after_tick(dt, q).wf(),
{
    lemma_next_green_differs(c.active_direction, q);
}

/// The approach picked for the next green is never the current green one.
pub proof fn lemma_next_green_differs(green: Direction, q: Seq<usize>)
    requires
        q.len() == 4,
    ensures
        next_green(green, q) != green,
{
    lemma_most_congested(green, q, 4);
    lemma_clockwise_steps(green);
}

/// Phases run Green, Yellow, AllRed, Green, ... and a tick never skips one.
pub proof fn lemma_tick_phase_order(c: TrafficLightController, dt: int, q: Seq<usize>)
    ensures
        c.after_tick(dt, q).state == c.state || c.after_tick(dt, q).state == c.state.following(),
{
}

/// The green moves only when an all-red phase ends, and then to the approach
/// announced when the previous green ended; under the invariant that approach
/// differs from the previous green one.
pub proof fn lemma_tick_green_handover(c: TrafficLightController, dt: int, q: Seq<usize>)
    ensures
        c.after_tick(dt, q).active_direction != c.active_direction ==> {
            &&& c.state == LightState::AllRed
            &&& c.after_tick(dt, q).state == LightState::Green
            &&& c.after_tick(dt, q).active_direction == c.next_direction
        },
        c.wf() && c.state == LightState::AllRed && c.after_tick(dt, q).state == LightState::Green
            ==> c.after_tick(dt, q).active_direction != c.active_direction,
        c.state == LightState::Green && c.after_tick(dt, q).state == LightState::Yellow
            ==> c.after_tick(dt, q).next_direction == next_green(c.active_direction, q),
        c.after_tick(dt, q).next_direction != c.next_direction ==> c.state == LightState::Green
            && c.after_tick(dt, q).state == LightState::Yellow,
{
}

/// A green phase is extended at most once, and only for a congested green
/// lane: once extended, its timer only counts down, and the mark is cleared
/// only when a new green phase begins.
pub proof fn lemma_tick_extension_once(c: TrafficLightController, dt: int, q: Seq<usize>)
    requires
        dt >= 0,
        c.timer - dt >= i64::MIN,
    ensures
        c.state == LightState::Green && c.extended && c.after_tick(dt, q).state == LightState::Green
            ==> c.after_tick(dt, q).timer == c.timer - dt && c.after_tick(dt, q).extended,
        c.after_tick(dt, q).extended && !c.extended ==> c.state == LightState::Green && lane_queue(
            q,
            c.active_direction,
        ) >= QUEUE_CAPACITY,
        !c.after_tick(dt, q).extended && c.extended ==> c.state == LightState::AllRed
            && c.after_tick(dt, q).state == LightState::Green,
{
}

/// At most one approach sees green, and only the active one during its
/// green phase; the yellow and all-red phases show red everywhere.
pub proof fn lemma_single_moving_approach(c: TrafficLightController, a: Direction, b: Direction)
    ensures
        a != b ==> c.aspect_for(a) == Aspect::Red || c.aspect_for(b) == Aspect::Red,
        c.aspect_for(a) == Aspect::Green <==> c.state == LightState::Green && c.active_direction
            == a,
        c.state != LightState::Green ==> c.aspect_for(a) == Aspect::Red,
{
}

/// Dynamic congestion rule: a green lane at capacity whose green would drop
/// below two seconds gets three more seconds, once.
pub proof fn lemma_congested_green_extended(c: TrafficLightController, dt: int, q: Seq<usize>)
    requires
        c.state == LightState::Green,
        !c.extended,
        lane_queue(q, c.active_direction) >= QUEUE_CAPACITY,
        0 < c.timer - dt < EXTEND_WHEN_BELOW,
    ensures
        c.after_tick(dt, q).state == LightState::Green,
        c.after_tick(dt, q).timer == c.timer - dt + GREEN_EXTENSION,
        c.after_tick(dt, q).extended,
        c.after_tick(dt, q).active_direction == c.active_direction,
{
}

/// An empty green lane gives way early: once less than three seconds of green
/// remain and another lane has a waiting vehicle, the light turns yellow and
/// the next green is chosen.
pub proof fn lemma_empty_green_yields(c: TrafficLightController, dt: int, q: Seq<usize>)
    requires
        c.state == LightState::Green,
        lane_queue(q, c.active_direction) == 0,
        c.others_waiting(q),
        c.timer - dt < EARLY_END_WHEN_BELOW,
    ensures
        c.after_tick(dt, q).state == LightState::Yellow,
        c.after_tick(dt, q).timer == YELLOW_TIME,
        c.after_tick(dt, q).next_direction == next_green(c.active_direction, q),
        c.after_tick(dt, q).active_direction == c.active_direction,
{
}

/// A green whose own lane still has vehicles waiting does not give way early:
/// as long as time is left after the tick, the light stays green, whatever
/// the other lanes hold.
pub proof fn lemma_busy_green_continues(c: TrafficLightController, dt: int, q: Seq<usize>)
    requires
        c.state == LightState::Green,
        q.len() == 4,
        q[c.active_direction.index() as int] > 0,
        0 <= dt,
        c.timer - dt > 0,
    ensures
        c.after_tick(dt, q).state == LightState::Green,
        c.after_tick(dt, q).active_direction == c.active_direction,
        c.after_tick(dt, q).timer >= c.timer - dt,
{
}

/// A red lane whose queue has reached capacity is served next: the chosen
/// approach is not the green one, its queue has reached capacity, and no
/// other red lane has a longer queue.
pub proof fn lemma_congested_lane_served_next(green: Direction, q: Seq<usize>, d: Direction)
    requires
        q.len() == 4,
        d != green,
        q[d.index() as int] >= QUEUE_CAPACITY,
    ensures
        next_green(green, q) != green,
        q[next_green(green, q).index() as int] >= QUEUE_CAPACITY,
        forall|e: Direction| #![trigger e.index()] e != green ==> q[e.index() as int] <= q[next_green(green, q).index() as int],
        forall|e: Direction|
            #![trigger e.index()]
            e != green && q[e.index() as int] == q[next_green(green, q).index() as int]
                ==> next_green(green, q).index() <= e.index(),
{
    lemma_most_congested(green, q, 4);
    assert(congested_red(green, q, d));
    assert(d.index() < 4);
    let r = next_green(green, q);
    assert forall|e: Direction| #![trigger e.index()] e != green implies q[e.index() as int] <= q[r.index() as int]
        && (q[e.index() as int] == q[r.index() as int] ==> r.index() <= e.index()) by {
        if q[e.index() as int] >= QUEUE_CAPACITY {
            assert(congested_red(green, q, e));
            assert(e.index() < 4);
        }
    }
}

/// Each phase lasts as long as its timer: a tick that leaves time on a yellow
/// or all-red timer only counts it down (5 s of green, 1.5 s of yellow, 1 s
/// of all-red), and a tick that uses it up moves to the next phase with that
/// phase's full time; a green whose lane is not extended ends into yellow
/// when its time is used up.
pub proof fn lemma_phase_timers(c: TrafficLightController, dt: int, q: Seq<usize>)
    requires
        q.len() == 4,
        0 <= dt,
        c.timer - dt >= i64::MIN,
    ensures
        c.state != LightState::Green && c.timer - dt > 0 ==> c.after_tick(dt, q) == (
        TrafficLightController { timer: (c.timer - dt) as i64, ..c }),
        c.state == LightState::Yellow && c.timer - dt <= 0 ==> c.after_tick(dt, q) == (
        TrafficLightController { state: LightState::AllRed, timer: 1_000_000, ..c }),
        c.state == LightState::AllRed && c.timer - dt <= 0 ==> c.after_tick(dt, q) == (
        TrafficLightController {
            active_direction: c.next_direction,
            state: LightState::Green,
            timer: 5_000_000,
            extended: false,
            next_direction: c.next_direction,
        }),
        c.state == LightState::Green && c.timer - dt <= 0 && (c.extended || q[c.active_direction.index()
            as int] < 7) ==> {
            &&& c.after_tick(dt, q).state == LightState::Yellow
            &&& c.after_tick(dt, q).timer == 1_500_000
            &&& c.after_tick(dt, q).active_direction == c.active_direction
        },
{
}

/// How many clockwise steps lead from `from` to `to` (0 to 3).
pub open spec fn clockwise_steps(from: Direction, to: Direction) -> int {
    (to.index() + 4 - from.index()) % 4
}

/// With no red lane at capacity, the next green goes to the first approach
/// clockwise from the green one that has a waiting vehicle: every approach
/// passed over on the way is empty, and the chosen one has a vehicle unless
/// no red lane has any, in which case it is the clockwise neighbour.
pub proof fn lemma_uncongested_next_is_first_waiting(green: Direction, q: Seq<usize>)
    requires
        q.len() == 4,
        forall|d: Direction| #![trigger d.index()] d != green ==> q[d.index() as int] < QUEUE_CAPACITY,
    ensures
        1 <= clockwise_steps(green, next_green(green, q)) <= 3,
        forall|d: Direction|
            #![trigger d.index()]
            0 < clockwise_steps(green, d) < clockwise_steps(green, next_green(green, q)) ==> q[d.index() as int] == 0,
        (exists|d: Direction| #![trigger d.index()] d != green && q[d.index() as int] > 0) ==> q[next_green(
            green,
            q,
        ).index() as int] > 0,
        (forall|d: Direction| #![trigger d.index()] d != green ==> q[d.index() as int] == 0) ==> clockwise_steps(
            green,
            next_green(green, q),
        ) == 1,
{
    lemma_most_congested(green, q, 4);
    assert(!any_congested_red(green, q)) by {
        if any_congested_red(green, q) {
            let d = choose|d: Direction| #[trigger] congested_red(green, q, d);
            assert(d.index() < 4);
        }
    }
}

/// Green time a controller can still give its current approach: the time
/// left plus the extension, if not used yet.
pub open spec fn green_budget(c: TrafficLightController) -> int {
    c.timer + if c.extended {
        0
    } else {
        GREEN_EXTENSION as int
    }
}

/// The light is green before the run and after every tick of it (tick `i`
/// lasts `dts[i]` with queues `qs[i]`).
pub open spec fn stays_green(c: TrafficLightController, dts: Seq<int>, qs: Seq<Seq<usize>>) -> bool
    decreases dts.len(),
{
    &&& c.state == LightState::Green
    &&& (dts.len() == 0 || stays_green(c.after_tick(dts[0], qs[0]), dts.drop_first(), qs.drop_first()))
}

/// Total length of a run of ticks.
pub open spec fn total_time(dts: Seq<int>) -> int
    decreases dts.len(),
{
    if dts.len() == 0 {
        0
    } else {
        dts[0] + total_time(dts.drop_first())
    }
}

proof fn lemma_green_budget_runs_out(c: TrafficLightController, dts: Seq<int>, qs: Seq<Seq<usize>>)
    requires
        c.state == LightState::Green,
        dts.len() == qs.len(),
        forall|i: int| 0 <= i < dts.len() ==> 0 < #[trigger] dts[i] <= u32::MAX,
        total_time(dts) >= green_budget(c),
        total_time(dts) > 0,
    ensures
        !stays_green(c, dts, qs),
    decreases dts.len(),
{
    if dts.len() > 0 {
        let c1 = c.after_tick(dts[0], qs[0]);
        if c1.state == LightState::Green {
            assert(c1.timer > 0);
            assert(green_budget(c1) <= green_budget(c) - dts[0]);
            let rest = dts.drop_first();
            assert forall|i: int| 0 <= i < rest.len() implies 0 < #[trigger] rest[i] <= u32::MAX by {
                assert(rest[i] == dts[i + 1]);
            }
            lemma_green_budget_runs_out(c1, rest, qs.drop_first());
        } else {
            assert(!stays_green(c1, dts.drop_first(), qs.drop_first()));
        }
    } else {
        assert(total_time(dts) == 0);
    }
}

/// A green phase never outlasts eight seconds: from a green light with at
/// most the base green time left, any run of positive ticks totalling at least
/// the base green time plus the one extension reaches a tick after which the
/// light is no longer green (it is then yellow, by `lemma_tick_phase_order`).
pub proof fn lemma_green_phase_ends(c: TrafficLightController, dts: Seq<int>, qs: Seq<Seq<usize>>)
    requires
        c.state == LightState::Green,
        c.timer <= GREEN_TIME,
        dts.len() == qs.len(),
        forall|i: int| 0 <= i < dts.len() ==> 0 < #[trigger] dts[i] <= u32::MAX,
        total_time(dts) >= GREEN_TIME + GREEN_EXTENSION,
    ensures
        !stays_green(c, dts, qs),
{
    lemma_green_budget_runs_out(c, dts, qs);
}

} // verus!
