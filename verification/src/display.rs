use vstd::prelude::*;
use crate::geometry::{UNITS_PER_PIXEL, isqrt, lemma_sqrt_floor, sqrt_floor};
use crate::vehicle::Vehicle;

verus! {

/// Width of a queue bar on the dashboard when the lane is at capacity, in pixels.
pub const BAR_WIDTH: usize = 170;

/// How full a lane is, as shown on the dashboard.
#[derive(Debug, Clone, Copy, PartialEq, Eq, Structural)]
pub enum Congestion {
    /// More than two vehicles below capacity.
    Clear,
    /// Within two vehicles of capacity.
    Busy,
    /// At or above capacity.
    Full,
}

/// The dashboard's level for a queue of `queue` vehicles in a lane that holds `capacity`.
pub open spec fn congestion_of(queue: int, capacity: int) -> Congestion {
    if queue >= capacity {
        Congestion::Full
    } else if queue >= capacity - 2 {
        Congestion::Busy
    } else {
        Congestion::Clear
    }
}

/// The congestion level shown for a lane.
pub fn congestion_level(queue: usize, capacity: usize) -> (r: Congestion)
    requires
        queue >= capacity || capacity >= 2,
    ensures
        r == congestion_of(queue as int, capacity as int),
        (r == Congestion::Full) <==> queue >= capacity,
        (r == Congestion::Busy) <==> capacity - 2 <= queue && queue < capacity,
        (r == Congestion::Clear) <==> queue + 2 < capacity,
{
    if queue >= capacity {
        Congestion::Full
    } else if queue >= capacity - 2 {
        Congestion::Busy
    } else {
        Congestion::Clear
    }
}

/// Width of the filled part of a lane's queue bar: proportional to the queue,
/// rounded down, and never wider than the full bar.
pub fn queue_bar_width(queue: usize, capacity: usize) -> (r: u32)
    requires
        capacity > 0,
        queue <= usize::MAX / 170,
    ensures
        r as int == if (BAR_WIDTH * queue) / (capacity as int) <= BAR_WIDTH {
            (BAR_WIDTH * queue) / (capacity as int)
        } else {
            BAR_WIDTH as int
        },
        r <= BAR_WIDTH,
{
    let fill = (BAR_WIDTH * queue) / capacity;
    if fill <= BAR_WIDTH {
        fill as u32
    } else {
        BAR_WIDTH as u32
    }
}

/// The dashboard's three bands: a lane at or above capacity is full, one
/// within two vehicles below capacity is busy, and one further below is clear.
pub proof fn lemma_congestion_bands(queue: usize, capacity: usize)
    requires
        queue >= capacity || capacity >= 2,
    ensures
        (congestion_of(queue as int, capacity as int) == Congestion::Full) <==> queue >= capacity,
        (congestion_of(queue as int, capacity as int) == Congestion::Busy) <==> capacity - 2 <= queue
            && queue < capacity,
        (congestion_of(queue as int, capacity as int) == Congestion::Clear) <==> queue + 2 < capacity,
{
}

/// The horizontal spans, one pixel high, that fill a disc of `radius` around
/// `(cx, cy)`: one per row from the top, each as wide as the disc allows.
pub open spec fn disc_spans(cx: int, cy: int, radius: int) -> Seq<(i32, i32, u32)> {
    if radius < 0 {
        seq![]
    } else {
        Seq::new(
            (2 * radius + 1) as nat,
            |k: int|
                {
                    let dy = k - radius;
                    let w = sqrt_floor(radius * radius - dy * dy);
                    ((cx - w) as i32, (cy + dy) as i32, (2 * w) as u32)
                },
        )
    }
}

/// The spans that fill a disc (see `disc_spans`).
pub fn circle_spans(cx: i32, cy: i32, radius: i32) -> (spans: Vec<(i32, i32, u32)>)
    requires
        -46340 <= radius <= 46340,
        radius >= 0 ==> cx - radius >= i32::MIN && cy - radius >= i32::MIN && cy + radius
            <= i32::MAX,
    ensures
        spans@ == disc_spans(cx as int, cy as int, radius as int),
{
    let mut spans: Vec<(i32, i32, u32)> = Vec::new();
    assert(0 <= radius * radius <= 2147395600) by (nonlinear_arith)
        requires
            -46340 <= radius <= 46340,
    ;
    let r2 = radius * radius;
    if radius < 0 {
        return spans;
    }
    let mut y: i32 = -radius;
    while y <= radius
        invariant
            0 <= radius <= 46340,
            r2 == radius * radius,
            -radius <= y <= radius + 1,
            cx - radius >= i32::MIN,
            cy - radius >= i32::MIN,
            cy + radius <= i32::MAX,
            spans@ =~= disc_spans(cx as int, cy as int, radius as int).take(y + radius),
        decreases radius + 1 - y,
    {
        assert(0 <= y * y <= r2) by (nonlinear_arith)
            requires
                -radius <= y <= radius,
                r2 == radius * radius,
        ;
        let y2 = y * y;
        let root = isqrt((r2 - y2) as u64);
        assert(root <= radius) by (nonlinear_arith)
            requires
                root * root <= r2 - y2,
                y2 >= 0,
                r2 == radius * radius,
                radius >= 0,
                root >= 0,
        ;
        let w = root as i32;
        spans.push((cx - w, cy + y, (w * 2) as u32));
        y = y + 1;
    }
    spans
}

/// Every span stays inside the disc, reaches as far as the disc allows, and
/// is centred on the disc's column.
pub proof fn lemma_disc_spans(cx: int, cy: int, radius: int, k: int)
    requires
        0 <= radius <= 46340,
        0 <= k <= 2 * radius,
    ensures
        ({
            let dy = k - radius;
            let w = sqrt_floor(radius * radius - dy * dy);
            &&& w * w + dy * dy <= radius * radius
            &&& (w + 1) * (w + 1) + dy * dy > radius * radius
            &&& 0 <= w <= radius
        }),
{
    let dy = k - radius;
    assert(0 <= dy * dy <= radius * radius) by (nonlinear_arith)
        requires
            -radius <= dy <= radius,
    ;
    lemma_sqrt_floor(radius * radius - dy * dy);
    let w = sqrt_floor(radius * radius - dy * dy);
    assert(w <= radius) by (nonlinear_arith)
        requires
            w * w <= radius * radius - dy * dy,
            dy * dy >= 0,
            w >= 0,
            radius >= 0,
    ;
}

/// Half the width of a vehicle sprite (15 px), in position units.
pub const SPRITE_HALF_LENGTH: i64 = 4800;

/// Half the height of a vehicle sprite (9 px), in position units.
pub const SPRITE_HALF_WIDTH: i64 = 2880;

/// A vehicle is drawn while its position lies within 30 px of the 800 px
/// square map: from -30 px to 830 px on both axes.
pub open spec fn on_canvas(x: int, y: int) -> bool {
    -9600 <= x <= 265600 && -9600 <= y <= 265600
}

/// `a / b` rounded towards zero (for `b > 0`).
pub open spec fn div_toward_zero(a: int, b: int) -> int {
    if a >= 0 {
        a / b
    } else {
        -((-a) / b)
    }
}

/// Where the sprite of `v` goes, in whole pixels (its top-left corner): none
/// when the vehicle has finished its path or is off the canvas.
pub open spec fn sprite_at(v: Vehicle) -> Option<(i32, i32)> {
    if v.finished() || !on_canvas(v.x as int, v.y as int) {
        None
    } else {
        Some(
            (
                div_toward_zero(v.x - SPRITE_HALF_LENGTH, UNITS_PER_PIXEL as int) as i32,
                div_toward_zero(v.y - SPRITE_HALF_WIDTH, UNITS_PER_PIXEL as int) as i32,
            ),
        )
    }
}

/// Placement of a vehicle's sprite (see `sprite_at`).
pub fn sprite_origin(v: &Vehicle) -> (r: Option<(i32, i32)>)
    ensures
        r == sprite_at(*v),
{
    if v.current_waypoint >= v.path.len() {
        return None;
    }
    if v.x >= -9600 && v.x <= 265600 && v.y >= -9600 && v.y <= 265600 {
        let dx = v.x - SPRITE_HALF_LENGTH;
        let dy = v.y - SPRITE_HALF_WIDTH;
        let px = if dx >= 0 {
            dx / UNITS_PER_PIXEL
        } else {
            -((-dx) / UNITS_PER_PIXEL)
        };
        let py = if dy >= 0 {
            dy / UNITS_PER_PIXEL
        } else {
            -((-dy) / UNITS_PER_PIXEL)
        };
        Some((px as i32, py as i32))
    } else {
        None
    }
}

} // verus!
