use vstd::prelude::*;

verus! {

/// The four approaches of the intersection, named after the side of the map
/// a vehicle enters from (a `North` vehicle drives southwards).
#[derive(Debug, Clone, Copy, PartialEq, Eq, Structural)]
pub enum Direction {
    North,
    East,
    South,
    West,
}

/// What a vehicle does once it is in the intersection.
#[derive(Debug, Clone, Copy, PartialEq, Eq, Structural)]
pub enum Route {
    Straight,
    Left,
    Right,
}

impl Direction {
    /// Position of the approach in the clockwise order North, East, South, West.
    pub open spec fn index(self) -> nat {
        match self {
            Direction::North => 0,
            Direction::East => 1,
            Direction::South => 2,
            Direction::West => 3,
        }
    }

    /// The approach at a given clockwise position (taken modulo 4).
    pub open spec fn at_index(i: nat) -> Direction {
        if i % 4 == 0 {
            Direction::North
        } else if i % 4 == 1 {
            Direction::East
        } else if i % 4 == 2 {
            Direction::South
        } else {
            Direction::West
        }
    }

    /// The next approach clockwise.
    pub open spec fn clockwise(self) -> Direction {
        Direction::at_index(self.index() + 1)
    }

    /// The next approach in the controller's clockwise cycle.
    pub fn next(self) -> (r: Direction)
        ensures
            r == self.clockwise(),
            r.index() == (self.index() + 1) % 4,
    {
        match self {
            Direction::North => Direction::East,
            Direction::East => Direction::South,
            Direction::South => Direction::West,
            Direction::West => Direction::North,
        }
    }

    /// The approach's slot in a per-lane array of four.
    pub fn to_index(self) -> (r: usize)
        ensures
            r == self.index(),
            r < 4,
    {
        match self {
            Direction::North => 0,
            Direction::East => 1,
            Direction::South => 2,
            Direction::West => 3,
        }
    }

    /// The approach stored in slot `i` of a per-lane array of four.
    pub fn from_index(i: usize) -> (r: Direction)
        requires
            i < 4,
        ensures
            r.index() == i,
            r == Direction::at_index(i as nat),
    {
        match i {
            0 => Direction::North,
            1 => Direction::East,
            2 => Direction::South,
            _ => Direction::West,
        }
    }
}

impl Route {
    /// Slot of the route in the order Straight, Left, Right.
    pub open spec fn index(self) -> nat {
        match self {
            Route::Straight => 0,
            Route::Left => 1,
            Route::Right => 2,
        }
    }

    /// The route at slot `i` in the order Straight, Left, Right.
    pub open spec fn at_index(i: nat) -> Route {
        if i == 0 {
            Route::Straight
        } else if i == 1 {
            Route::Left
        } else {
            Route::Right
        }
    }

    /// The route with slot `i` in the order Straight, Left, Right.
    pub fn from_index(i: usize) -> (r: Route)
        requires
            i < 3,
        ensures
            r.index() == i,
            r == Route::at_index(i as nat),
    {
        match i {
            0 => Route::Straight,
            1 => Route::Left,
            _ => Route::Right,
        }
    }
}

/// Each approach has its own slot: two approaches with the same slot are the same.
pub proof fn lemma_index_identifies(a: Direction, b: Direction)
    ensures
        a.index() < 4,
        a.index() == b.index() <==> a == b,
        Direction::at_index(a.index()) == a,
{
}

/// Going clockwise never stays put, and four steps come back to the start.
pub proof fn lemma_clockwise_cycle(d: Direction)
    ensures
        d.clockwise() != d,
        d.clockwise().clockwise() != d,
        d.clockwise().clockwise().clockwise() != d,
        d.clockwise().clockwise().clockwise().clockwise() == d,
        d.clockwise().index() == (d.index() + 1) % 4,
{
}

/// Each route has its own slot.
pub proof fn lemma_route_index_identifies(a: Route, b: Route)
    ensures
        a.index() < 3,
        a.index() == b.index() <==> a == b,
{
}

} // verus!
