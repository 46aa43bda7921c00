use vstd::prelude::*;
use crate::direction::{Direction, Route};
use crate::geometry::{UNITS_PER_PIXEL, point_in_range};

verus! {

/// Number of segments each turning curve is cut into.
pub const CURVE_STEPS: i64 = 8;

/// The point at pixel coordinates `(x, y)`, in position units.
pub open spec fn at_px(x: int, y: int) -> (i64, i64) {
    ((x * UNITS_PER_PIXEL) as i64, (y * UNITS_PER_PIXEL) as i64)
}

/// Where vehicles of an approach enter the map (just off screen).
pub open spec fn spawn_point(d: Direction) -> (i64, i64) {
    match d {
        Direction::North => at_px(370, -50),
        Direction::South => at_px(430, 850),
        Direction::West => at_px(-50, 430),
        Direction::East => at_px(850, 370),
    }
}

/// The stop line of an approach.
pub open spec fn stop_point(d: Direction) -> (i64, i64) {
    match d {
        Direction::North => at_px(370, 340),
        Direction::South => at_px(430, 460),
        Direction::West => at_px(340, 430),
        Direction::East => at_px(460, 370),
    }
}

/// Where a vehicle going straight leaves the map.
pub open spec fn straight_exit(d: Direction) -> (i64, i64) {
    match d {
        Direction::North => at_px(370, 850),
        Direction::South => at_px(430, -50),
        Direction::West => at_px(850, 430),
        Direction::East => at_px(-50, 370),
    }
}

/// For a turn: the control point and the end of its curve, and where the
/// vehicle then leaves the map.
pub open spec fn turn_points(d: Direction, left: bool) -> ((i64, i64), (i64, i64), (i64, i64)) {
    if left {
        match d {
            Direction::North => (at_px(370, 430), at_px(460, 430), at_px(850, 430)),
            Direction::South => (at_px(430, 370), at_px(340, 370), at_px(-50, 370)),
            Direction::West => (at_px(430, 430), at_px(430, 340), at_px(430, -50)),
            Direction::East => (at_px(370, 370), at_px(370, 460), at_px(370, 850)),
        }
    } else {
        match d {
            Direction::North => (at_px(370, 370), at_px(340, 370), at_px(-50, 370)),
            Direction::South => (at_px(430, 430), at_px(460, 430), at_px(850, 430)),
            Direction::West => (at_px(370, 430), at_px(370, 460), at_px(370, 850)),
            Direction::East => (at_px(430, 370), at_px(430, 340), at_px(430, -50)),
        }
    }
}

/// One coordinate of the quadratic Bezier curve from `s` via `c` to `e` at
/// parameter `t = i / 8`: `(1-t)^2 s + 2(1-t)t c + t^2 e`.
pub open spec fn bezier(s: int, c: int, e: int, i: int) -> int {
    ((8 - i) * (8 - i) * s + 2 * (8 - i) * i * c + i * i * e) / 64
}

/// The point of the curve from `s` via `c` to `e` at parameter `i / 8`.
pub open spec fn curve_point(s: (i64, i64), c: (i64, i64), e: (i64, i64), i: int) -> (i64, i64) {
    (
        bezier(s.0 as int, c.0 as int, e.0 as int, i) as i64,
        bezier(s.1 as int, c.1 as int, e.1 as int, i) as i64,
    )
}

/// The waypoints of a route: entry, stop line, then either the straight exit,
/// or the eight points of the turning curve followed by the exit.
pub open spec fn planned_path(d: Direction, route: Route) -> Seq<(i64, i64)> {
    match route {
        Route::Straight => seq![spawn_point(d), stop_point(d), straight_exit(d)],
        _ => {
            let (control, end, exit) = turn_points(d, route == Route::Left);
            seq![spawn_point(d), stop_point(d)] + Seq::new(
                8,
                |k: int| curve_point(stop_point(d), control, end, k + 1),
            ) + seq![exit]
        },
    }
}

/// The entry point of an approach.
pub fn spawn_position(d: Direction) -> (r: (i64, i64))
    ensures
        r == spawn_point(d),
{
    match d {
        Direction::North => (370 * UNITS_PER_PIXEL, -50 * UNITS_PER_PIXEL),
        Direction::South => (430 * UNITS_PER_PIXEL, 850 * UNITS_PER_PIXEL),
        Direction::West => (-50 * UNITS_PER_PIXEL, 430 * UNITS_PER_PIXEL),
        Direction::East => (850 * UNITS_PER_PIXEL, 370 * UNITS_PER_PIXEL),
    }
}

fn bezier_exec(s: i64, c: i64, e: i64, i: i64) -> (r: i64)
    requires
        1 <= i <= 8,
        0 <= s <= 1000000,
        0 <= c <= 1000000,
        0 <= e <= 1000000,
    ensures
        r == bezier(s as int, c as int, e as int, i as int),
{
    assert(0 <= (8 - i) * (8 - i) <= 49 && 0 <= 2 * (8 - i) * i <= 32 && 1 <= i * i <= 64)
        by (nonlinear_arith)
        requires
            1 <= i <= 8,
    ;
    let a = (8 - i) * (8 - i);
    let b = 2 * (8 - i) * i;
    let g = i * i;
    assert(0 <= a <= 49 && 0 <= b <= 32 && 1 <= g <= 64) by (nonlinear_arith)
        requires
            1 <= i <= 8,
            a == (8 - i) * (8 - i),
            b == 2 * (8 - i) * i,
            g == i * i,
    ;
    assert(-64000000 <= a * s <= 64000000) by (nonlinear_arith)
        requires
            0 <= a <= 64,
            0 <= s <= 1000000,
    ;
    assert(-64000000 <= b * c <= 64000000) by (nonlinear_arith)
        requires
            0 <= b <= 64,
            0 <= c <= 1000000,
    ;
    assert(-64000000 <= g * e <= 64000000) by (nonlinear_arith)
        requires
            0 <= g <= 64,
            0 <= e <= 1000000,
    ;
    let sum = a * s + b * c + g * e;
    // For the intersection's points the sum is a multiple of 64, so the
    // division is exact.
    sum / 64
}

/// The route of a vehicle entering from `spawn`: its entry point, its stop
/// line, and then the straight exit, or eight points along the turning curve
/// followed by the exit.
pub fn generate_path(spawn: Direction, route: Route) -> (path: Vec<(i64, i64)>)
    ensures
        path@ == planned_path(spawn, route),
{
    let mut path: Vec<(i64, i64)> = Vec::new();
    let u = UNITS_PER_PIXEL;

    let (spawn_pos, stop_pos) = match spawn {
        Direction::North => ((370 * u, -50 * u), (370 * u, 340 * u)),
        Direction::South => ((430 * u, 850 * u), (430 * u, 460 * u)),
        Direction::West => ((-50 * u, 430 * u), (340 * u, 430 * u)),
        Direction::East => ((850 * u, 370 * u), (460 * u, 370 * u)),
    };

    path.push(spawn_pos);
    path.push(stop_pos);

    match route {
        Route::Straight => {
            let end_pos = match spawn {
                Direction::North => (370 * u, 850 * u),
                Direction::South => (430 * u, -50 * u),
                Direction::West => (850 * u, 430 * u),
                Direction::East => (-50 * u, 370 * u),
            };
            path.push(end_pos);
            assert(path@ =~= planned_path(spawn, route));
        },
        _ => {
            let left = match route {
                Route::Left => true,
                _ => false,
            };
            let (control, end, exit) = if left {
                match spawn {
                    Direction::North => ((370 * u, 430 * u), (460 * u, 430 * u), (850 * u, 430 * u)),
                    Direction::South => ((430 * u, 370 * u), (340 * u, 370 * u), (-50 * u, 370 * u)),
                    Direction::West => ((430 * u, 430 * u), (430 * u, 340 * u), (430 * u, -50 * u)),
                    Direction::East => ((370 * u, 370 * u), (370 * u, 460 * u), (370 * u, 850 * u)),
                }
            } else {
                match spawn {
                    Direction::North => ((370 * u, 370 * u), (340 * u, 370 * u), (-50 * u, 370 * u)),
                    Direction::South => ((430 * u, 430 * u), (460 * u, 430 * u), (850 * u, 430 * u)),
                    Direction::West => ((370 * u, 430 * u), (370 * u, 460 * u), (370 * u, 850 * u)),
                    Direction::East => ((430 * u, 370 * u), (430 * u, 340 * u), (430 * u, -50 * u)),
                }
            };
            assert((control, end, exit) == turn_points(spawn, route == Route::Left));
            let steps: i64 = CURVE_STEPS;
            let mut i: i64 = 1;
            while i <= steps
                invariant
                    steps == 8,
                    1 <= i <= 9,
                    0 <= stop_pos.0 <= 1000000,
                    0 <= stop_pos.1 <= 1000000,
                    0 <= control.0 <= 1000000,
                    0 <= control.1 <= 1000000,
                    0 <= end.0 <= 1000000,
                    0 <= end.1 <= 1000000,
                    path@ =~= seq![spawn_pos, stop_pos] + Seq::new(
                        (i - 1) as nat,
                        |k: int| curve_point(stop_pos, control, end, k + 1),
                    ),
                decreases 9 - i,
            {
                let x = bezier_exec(stop_pos.0, control.0, end.0, i);
                let y = bezier_exec(stop_pos.1, control.1, end.1, i);
                path.push((x, y));
                i = i + 1;
            }
            path.push(exit);
            assert(path@ =~= planned_path(spawn, route));
        },
    }
    path
}

/// A point of the curve lies between the smallest and the largest of the
/// coordinates it is built from.
proof fn lemma_bezier_between(s: int, c: int, e: int, i: int, lo: int, hi: int)
    requires
        0 <= i <= 8,
        lo <= s <= hi,
        lo <= c <= hi,
        lo <= e <= hi,
    ensures
        lo <= bezier(s, c, e, i) <= hi,
{
    let a = (8 - i) * (8 - i);
    let b = 2 * (8 - i) * i;
    let g = i * i;
    assert(a + b + g == 64 && a >= 0 && b >= 0 && g >= 0) by (nonlinear_arith)
        requires
            0 <= i <= 8,
            a == (8 - i) * (8 - i),
            b == 2 * (8 - i) * i,
            g == i * i,
    ;
    assert(64 * lo <= a * s + b * c + g * e <= 64 * hi) by (nonlinear_arith)
        requires
            a + b + g == 64,
            a >= 0,
            b >= 0,
            g >= 0,
            lo <= s <= hi,
            lo <= c <= hi,
            lo <= e <= hi,
    ;
}

/// Every route starts at its approach's entry point and passes its stop line;
/// a straight route then leaves the map, a turn follows eight curve points
/// ending exactly at the curve's end before leaving; every waypoint is a
/// position in range.
pub proof fn lemma_planned_path(d: Direction, route: Route)
    ensures
        ({
            let p = planned_path(d, route);
            let (control, end, exit) = turn_points(d, route == Route::Left);
            &&& p[0] == spawn_point(d)
            &&& p[1] == stop_point(d)
            &&& route == Route::Straight ==> p.len() == 3 && p[2] == straight_exit(d)
            &&& route != Route::Straight ==> p.len() == 11 && p[9] == end && p[10] == exit
            &&& forall|k: int| 0 <= k < p.len() ==> point_in_range(#[trigger] p[k])
        }),
{
    let p = planned_path(d, route);
    let (control, end, exit) = turn_points(d, route == Route::Left);
    assert(p[0] == spawn_point(d));
    assert(p[1] == stop_point(d));
    if route != Route::Straight {
        let st = stop_point(d);
        assert forall|k: int| 0 <= k < 8 implies point_in_range(
            #[trigger] curve_point(st, control, end, k + 1),
        ) by {
            lemma_bezier_between(st.0 as int, control.0 as int, end.0 as int, k + 1, 0, 1000000);
            lemma_bezier_between(st.1 as int, control.1 as int, end.1 as int, k + 1, 0, 1000000);
        }
        assert(p[9] == curve_point(st, control, end, 8));
        assert(bezier(st.0 as int, control.0 as int, end.0 as int, 8) == end.0);
        assert(bezier(st.1 as int, control.1 as int, end.1 as int, 8) == end.1);
        assert(p[9] == end);
        assert(p[10] == exit);
        assert(p.len() == 11);
        assert forall|k: int| 0 <= k < p.len() implies point_in_range(#[trigger] p[k]) by {
            if 2 <= k < 10 {
                assert(p[k] == curve_point(st, control, end, (k - 2) + 1));
            }
        }
    }
}

/// The way a vehicle of approach `d` drives as it comes in, as a unit step on
/// the map's axes (the y axis points down: a `North` vehicle drives down).
pub open spec fn heading(d: Direction) -> (int, int) {
    match d {
        Direction::North => (0, 1),
        Direction::South => (0, -1),
        Direction::West => (1, 0),
        Direction::East => (-1, 0),
    }
}

/// The driver's left of a unit step `h` on a map whose y axis points down.
pub open spec fn left_of(h: (int, int)) -> (int, int) {
    (h.1, -h.0)
}

/// The driver's right of a unit step `h` on a map whose y axis points down.
pub open spec fn right_of(h: (int, int)) -> (int, int) {
    (-h.1, h.0)
}

/// `v` has the sign of the unit step component `h`: positive, negative or zero.
pub open spec fn same_sign(v: int, h: int) -> bool {
    &&& h > 0 ==> v > 0
    &&& h < 0 ==> v < 0
    &&& h == 0 ==> v == 0
}

/// Going from `a` to `b` moves exactly in the direction of the axis step `h`.
pub open spec fn moves_along(a: (i64, i64), b: (i64, i64), h: (int, int)) -> bool {
    same_sign(b.0 - a.0, h.0) && same_sign(b.1 - a.1, h.1)
}

/// Going from `a` to `b` gains ground in the direction of the axis step `h`.
pub open spec fn gains_along(a: (i64, i64), b: (i64, i64), h: (int, int)) -> bool {
    ||| h.0 > 0 && b.0 > a.0
    ||| h.0 < 0 && b.0 < a.0
    ||| h.1 > 0 && b.1 > a.1
    ||| h.1 < 0 && b.1 < a.1
}

/// Signed distance, in position units, of `p` from the centre of the
/// intersection (400 px, 400 px) in the direction of the axis step `h`.
pub open spec fn offset_along(p: (i64, i64), h: (int, int)) -> int {
    let centre = 400 * UNITS_PER_PIXEL;
    if h.0 > 0 {
        p.0 - centre
    } else if h.0 < 0 {
        centre - p.0
    } else if h.1 > 0 {
        p.1 - centre
    } else {
        centre - p.1
    }
}

/// Every route drives in along its approach to the stop line, 60 px before
/// the centre of the intersection. A straight route goes on the same way; a
/// left turn leaves the map towards the driver's left and a right turn towards
/// the driver's right, the curve ending ahead of the stop line, on the side of
/// the turn, 60 px past the centre. Every straight stretch keeps to the lane
/// 30 px right of the centre line.
pub proof fn lemma_route_headings(d: Direction, route: Route)
    ensures
        ({
            let p = planned_path(d, route);
            let h = heading(d);
            let side = if route == Route::Left {
                left_of(h)
            } else {
                right_of(h)
            };
            &&& moves_along(p[0], p[1], h)
            &&& offset_along(p[0], right_of(h)) == 30 * UNITS_PER_PIXEL
            &&& offset_along(p[1], right_of(h)) == 30 * UNITS_PER_PIXEL
            &&& offset_along(p[1], h) == -60 * UNITS_PER_PIXEL
            &&& route == Route::Straight ==> {
                &&& p.len() == 3
                &&& moves_along(p[1], p[2], h)
                &&& offset_along(p[2], right_of(h)) == 30 * UNITS_PER_PIXEL
            }
            &&& route != Route::Straight ==> {
                &&& p.len() == 11
                &&& moves_along(p[9], p[10], side)
                &&& gains_along(p[1], p[9], h)
                &&& gains_along(p[1], p[9], side)
                &&& offset_along(p[9], side) == 60 * UNITS_PER_PIXEL
                &&& offset_along(p[9], right_of(side)) == 30 * UNITS_PER_PIXEL
                &&& offset_along(p[10], right_of(side)) == 30 * UNITS_PER_PIXEL
            }
        }),
{
    lemma_planned_path(d, route);
    match d {
        Direction::North => {
            match route {
                Route::Straight => {},
                Route::Left => {},
                Route::Right => {},
            }
        },
        Direction::South => {
            match route {
                Route::Straight => {},
                Route::Left => {},
                Route::Right => {},
            }
        },
        Direction::West => {
            match route {
                Route::Straight => {},
                Route::Left => {},
                Route::Right => {},
            }
        },
        Direction::East => {
            match route {
                Route::Straight => {},
                Route::Left => {},
                Route::Right => {},
            }
        },
    }
}

} // verus!
