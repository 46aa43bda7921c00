use rand::Rng;
use vstd::prelude::*;
use crate::controller::TrafficLightController;
use crate::direction::{Direction, Route};
use crate::path::{generate_path, planned_path, spawn_point};
use crate::vehicle::{
    Vehicle, all_on_their_way, entry_clear_of, can_spawn, ids_increasing, lane_counts,
    queue_lengths, settle, stop_flags, update_vehicles,
};

verus! {

/// The thread-local generator `rand::rngs::ThreadRng`, carried through as an
/// opaque value.
#[verifier::external_type_specification]
#[verifier::external_body]
pub struct ExThreadRng(rand::rngs::ThreadRng);

/// `rand::Rng::gen_range(0..upper)` on the thread-local generator: a number
/// chosen by the generator, at least 0 and below `upper`. Which number comes
/// back depends on the generator's state and is not stated. `gen_range`
/// panics on an empty range, hence `upper > 0`.
#[verifier::external_body]
fn random_below(rng: &mut rand::rngs::ThreadRng, upper: usize) -> (r: usize)
    requires
        upper > 0,
    ensures
        r < upper,
{
    rng.gen_range(0..upper)
}

/// Keys that ask for a vehicle.
#[derive(Debug, Clone, Copy, PartialEq, Eq, Structural)]
pub enum SpawnKey {
    Up,
    Down,
    Left,
    Right,
    Random,
}

/// The approach a key spawns from: an arrow key names the direction of
/// travel (Up spawns at the South entry, moving north); `Random` names none.
pub open spec fn key_approach(key: SpawnKey) -> Option<Direction> {
    match key {
        SpawnKey::Up => Some(Direction::South),
        SpawnKey::Down => Some(Direction::North),
        SpawnKey::Right => Some(Direction::West),
        SpawnKey::Left => Some(Direction::East),
        SpawnKey::Random => None,
    }
}

/// The approach a spawn key leads to when a random draw gives `draw`: the
/// key's own approach for an arrow key, the approach at slot `draw` for
/// `SpawnKey::Random`.
pub open spec fn approach_for(key: SpawnKey, draw: nat) -> Direction {
    match key_approach(key) {
        Some(d) => d,
        None => Direction::at_index(draw),
    }
}

/// The approach a spawn key leads to for the draw `draw` (see `approach_for`).
pub fn choose_approach(key: SpawnKey, draw: usize) -> (r: Direction)
    requires
        draw < 4,
    ensures
        r == approach_for(key, draw as nat),
{
    match key_direction(key) {
        Some(d) => d,
        None => Direction::from_index(draw),
    }
}

/// The approach a key spawns from (see `key_approach`).
pub fn key_direction(key: SpawnKey) -> (r: Option<Direction>)
    ensures
        r == key_approach(key),
{
    match key {
        SpawnKey::Up => Some(Direction::South),
        SpawnKey::Down => Some(Direction::North),
        SpawnKey::Right => Some(Direction::West),
        SpawnKey::Left => Some(Direction::East),
        SpawnKey::Random => None,
    }
}

/// The whole intersection: the light controller, the vehicles on the map,
/// the number of vehicles that have crossed, and the id the next vehicle gets.
pub struct Simulation {
    controller: TrafficLightController,
    vehicles: Vec<Vehicle>,
    completed_crossings: usize,
    next_vehicle_id: usize,
}

/// What a `Simulation` holds.
pub struct SimulationState {
    pub controller: TrafficLightController,
    pub vehicles: Seq<Vehicle>,
    pub completed_crossings: nat,
    pub spawned: nat,
}

impl SimulationState {
    /// The state the simulation keeps at all times: a well-formed controller;
    /// vehicles that can take part in a frame, with distinct ids in increasing
    /// order, all below the next id; and every vehicle ever spawned is either
    /// on the map or has crossed.
    pub open spec fn consistent(self) -> bool {
        &&& self.controller.wf()
        &&& all_on_their_way(self.vehicles)
        &&& ids_increasing(self.vehicles)
        &&& forall|i: int| 0 <= i < self.vehicles.len() ==> #[trigger] self.vehicles[i].id < self.spawned
        &&& self.vehicles.len() + self.completed_crossings == self.spawned
    }

    /// A vehicle of `dir` may enter: no vehicle of that approach is within
    /// `SPAWN_CLEARANCE` of its entry point.
    pub open spec fn entry_clear(self, dir: Direction) -> bool {
        entry_clear_of(self.vehicles, dir)
    }
}

/// `v` is a vehicle just spawned: id `id`, at the entry point of `dir`,
/// following the planned path of `route`, heading for its stop line.
pub open spec fn is_new_vehicle(v: Vehicle, id: nat, dir: Direction, route: Route) -> bool {
    &&& v.id == id
    &&& v.spawn_direction == dir
    &&& v.route == route
    &&& v.path@ == planned_path(dir, route)
    &&& v.current_waypoint == 1
    &&& (v.x, v.y) == spawn_point(dir)
    &&& !v.is_stopped
}

/// `after` is `before` with one more vehicle: a new vehicle of `dir` on
/// `route`, with the next id, appended to the list.
pub open spec fn spawned_vehicle(
    before: SimulationState,
    after: SimulationState,
    dir: Direction,
    route: Route,
) -> bool {
    &&& after.vehicles.len() == before.vehicles.len() + 1
    &&& after.vehicles.drop_last() == before.vehicles
    &&& is_new_vehicle(after.vehicles.last(), before.spawned, dir, route)
    &&& after.spawned == before.spawned + 1
    &&& after.controller == before.controller
    &&& after.completed_crossings == before.completed_crossings
}

/// What a spawn key leads to for the draws `a` (an approach slot below 4)
/// and `b` (a route slot below 3): the approach is `approach_for(key, a)`;
/// a vehicle on route `Route::at_index(b)` is spawned there exactly when that
/// entry is clear, and otherwise nothing changes.
pub open spec fn key_spawn_outcome(
    key: SpawnKey,
    before: SimulationState,
    after: SimulationState,
    spawned: bool,
    a: nat,
    b: nat,
) -> bool {
    let dir = approach_for(key, a);
    let route = Route::at_index(b);
    &&& a < 4
    &&& b < 3
    &&& spawned == before.entry_clear(dir)
    &&& spawned ==> spawned_vehicle(before, after, dir, route)
    &&& !spawned ==> after == before
}

impl View for Simulation {
    type V = SimulationState;

    closed spec fn view(&self) -> SimulationState {
        SimulationState {
            controller: self.controller,
            vehicles: self.vehicles@,
            completed_crossings: self.completed_crossings as nat,
            spawned: self.next_vehicle_id as nat,
        }
    }
}

impl Simulation {
    /// An empty intersection with a fresh controller.
    pub fn new() -> (r: Simulation)
        ensures
            r@.controller == TrafficLightController::new_state(),
            r@.vehicles.len() == 0,
            r@.completed_crossings == 0,
            r@.spawned == 0,
            r@.consistent(),
    {
        Simulation {
            controller: TrafficLightController::new(),
            vehicles: Vec::new(),
            completed_crossings: 0,
            next_vehicle_id: 0,
        }
    }

    /// The light controller.
    pub fn controller(&self) -> (r: &TrafficLightController)
        ensures
            *r == self@.controller,
    {
        &self.controller
    }

    /// The vehicles on the map.
    pub fn vehicles(&self) -> (r: &Vec<Vehicle>)
        ensures
            r@ == self@.vehicles,
    {
        &self.vehicles
    }

    /// How many vehicles have left the map.
    pub fn completed_crossings(&self) -> (r: usize)
        ensures
            r == self@.completed_crossings,
    {
        self.completed_crossings
    }

    /// How many vehicles have been spawned (the id the next one gets).
    pub fn spawned(&self) -> (r: usize)
        ensures
            r == self@.spawned,
    {
        self.next_vehicle_id
    }

    /// Spawn a vehicle at the entry of `dir` following `route`, if the entry
    /// is clear; returns whether it was spawned.
    pub fn try_spawn(&mut self, dir: Direction, route: Route) -> (r: bool)
        requires
            old(self)@.consistent(),
            old(self)@.spawned < usize::MAX,
        ensures
            r == old(self)@.entry_clear(dir),
            r ==> spawned_vehicle(old(self)@, final(self)@, dir, route),
            !r ==> final(self)@ == old(self)@,
            final(self)@.consistent(),
    {
        if !self.entry_is_clear(dir) {
            return false;
        }
        self.add_vehicle(dir, route);
        true
    }

    /// Handle a spawn key: take the key's approach, or for `SpawnKey::Random`
    /// the approach at a slot drawn below 4; if that entry is clear, spawn a
    /// vehicle there on the route at a slot drawn below 3. Returns whether a
    /// vehicle was spawned. Which numbers the generator draws is not stated.
    pub fn spawn_for_key(&mut self, key: SpawnKey, rng: &mut rand::rngs::ThreadRng) -> (r: bool)
        requires
            old(self)@.consistent(),
            old(self)@.spawned < usize::MAX,
        ensures
            final(self)@.consistent(),
            exists|a: nat, b: nat| #[trigger] key_spawn_outcome(key, old(self)@, final(self)@, r, a, b),
    {
        let a = match key {
            SpawnKey::Random => random_below(rng, 4),
            _ => 0,
        };
        let dir = choose_approach(key, a);
        if !self.entry_is_clear(dir) {
            assert(key_spawn_outcome(key, old(self)@, self@, false, a as nat, 0));
            return false;
        }
        let b = random_below(rng, 3);
        let route = Route::from_index(b);
        self.add_vehicle(dir, route);
        assert(key_spawn_outcome(key, old(self)@, self@, true, a as nat, b as nat));
        true
    }

    /// Whether a vehicle may enter at `dir` (see `SimulationState::entry_clear`).
    fn entry_is_clear(&self, dir: Direction) -> (r: bool)
        requires
            self@.consistent(),
        ensures
            r == self@.entry_clear(dir),
    {
        let ghost vs = self.vehicles@;
        assert forall|i: int| 0 <= i < self.vehicles@.len() implies crate::geometry::in_range(
            #[trigger] self.vehicles@[i].x as int,
        ) && crate::geometry::in_range(self.vehicles@[i].y as int) by {
            assert(vs[i].well_placed());
        }
        can_spawn(dir, self.vehicles.as_slice())
    }

    /// Put a new vehicle at the entry of `dir`, following `route`.
    fn add_vehicle(&mut self, dir: Direction, route: Route)
        requires
            old(self)@.consistent(),
            old(self)@.spawned < usize::MAX,
        ensures
            spawned_vehicle(old(self)@, final(self)@, dir, route),
            final(self)@.consistent(),
    {
        let ghost vs = self.vehicles@;
        let path = generate_path(dir, route);
        proof {
            crate::path::lemma_planned_path(dir, route);
        }
        let spawn_pos = path[0];
        let vehicle = Vehicle {
            id: self.next_vehicle_id,
            spawn_direction: dir,
            route,
            path,
            current_waypoint: 1,
            x: spawn_pos.0,
            y: spawn_pos.1,
            is_stopped: false,
        };
        self.vehicles.push(vehicle);
        self.next_vehicle_id = self.next_vehicle_id + 1;
        proof {
            let nv = self.vehicles@;
            assert(nv.drop_last() =~= vs);
            assert forall|i: int| #![trigger nv[i]] 0 <= i < nv.len() implies nv[i].well_placed()
                && !nv[i].finished() by {
                if i < vs.len() {
                    assert(vs[i].well_placed());
                }
            }
            assert forall|i: int| 0 <= i < nv.len() implies #[trigger] nv[i].id < self.next_vehicle_id by {
                if i < vs.len() {
                    assert(vs[i].id < old(self)@.spawned);
                }
            }
            assert forall|a: int, b: int| 0 <= a < b < nv.len() implies #[trigger] nv[a].id
                < #[trigger] nv[b].id by {
                if b < vs.len() {
                    assert(vs[a].id < vs[b].id);
                } else {
                    assert(vs[a].id < old(self)@.spawned);
                }
            }
        }
    }

    /// One frame of `dt` microseconds: count the vehicles waiting in each lane,
    /// advance the controller with those counts, then move the vehicles under
    /// the updated lights (see `update_vehicles`).
    pub fn step(&mut self, dt: u32)
        requires
            old(self)@.consistent(),
        ensures
            final(self)@.controller == old(self)@.controller.after_tick(
                dt as int,
                lane_counts(old(self)@.vehicles),
            ),
            final(self)@.vehicles == settle(
                old(self)@.vehicles,
                stop_flags(old(self)@.vehicles, final(self)@.controller),
                old(self)@.vehicles.len(),
            ).0,
            final(self)@.completed_crossings == old(self)@.completed_crossings + settle(
                old(self)@.vehicles,
                stop_flags(old(self)@.vehicles, final(self)@.controller),
                old(self)@.vehicles.len(),
            ).1,
            final(self)@.spawned == old(self)@.spawned,
            final(self)@.consistent(),
    {
        let ghost vs = self.vehicles@;
        let queues = queue_lengths(self.vehicles.as_slice());
        proof {
            crate::controller::lemma_tick_keeps_wf(self.controller, dt as int, queues@);
        }
        self.controller.update(dt, &queues);
        proof {
            crate::vehicle::lemma_on_their_way_ready(vs);
        }
        update_vehicles(&mut self.vehicles, &self.controller, &mut self.completed_crossings);
        proof {
            crate::vehicle::lemma_frame_conserves_vehicles(vs, self.controller);
            let flags = stop_flags(vs, self.controller);
            let nv = self.vehicles@;
            assert forall|i: int| 0 <= i < nv.len() implies #[trigger] nv[i].id < self.next_vehicle_id by {
                let j = choose|j: int| 0 <= j < vs.len() && #[trigger] nv[i] == crate::vehicle::advanced(vs[j], flags[j]);
                assert(vs[j].well_placed() && !vs[j].finished());
                crate::vehicle::lemma_advanced(vs[j], flags[j]);
                assert(vs[j].id < old(self)@.spawned);
            }
        }
    }
}

} // verus!
