use vstd::prelude::*;

verus! {

/// Sub-pixel units per screen pixel. Positions are kept in these units so that
/// every waypoint of the intersection (the points of the turning curves among
/// them) and every distance threshold is a whole number of units.
pub const UNITS_PER_PIXEL: i64 = 320;

/// Largest coordinate magnitude, in units, that a position may take; the squared
/// distance between two such positions stays well inside 64 bits.
pub const COORD_LIMIT: i64 = 536870912;

/// Distance a moving vehicle covers per frame: 2 pixels.
pub const SPEED: i64 = 640;

/// A coordinate that positions may take.
pub open spec fn in_range(v: int) -> bool {
    -COORD_LIMIT <= v <= COORD_LIMIT
}

/// Both coordinates of a point are in range.
pub open spec fn point_in_range(p: (i64, i64)) -> bool {
    in_range(p.0 as int) && in_range(p.1 as int)
}

/// Squared Euclidean distance between `(ax, ay)` and `(bx, by)`.
pub open spec fn dist_sq(ax: int, ay: int, bx: int, by: int) -> int {
    (ax - bx) * (ax - bx) + (ay - by) * (ay - by)
}

/// `r` is the square root of `n`, rounded down.
pub open spec fn is_sqrt_floor(n: int, r: int) -> bool {
    0 <= r && r * r <= n && n < (r + 1) * (r + 1)
}

/// The square root of `n`, rounded down (for `n >= 0`).
pub open spec fn sqrt_floor(n: int) -> int {
    choose|r: int| is_sqrt_floor(n, r)
}

/// The square root of `n`, rounded up (for `n >= 0`).
pub open spec fn sqrt_ceil(n: int) -> int {
    if sqrt_floor(n) * sqrt_floor(n) == n {
        sqrt_floor(n)
    } else {
        sqrt_floor(n) + 1
    }
}

/// A non-negative number has exactly one rounded-down square root.
pub proof fn lemma_sqrt_floor(n: int)
    requires
        n >= 0,
    ensures
        is_sqrt_floor(n, sqrt_floor(n)),
        forall|r: int| is_sqrt_floor(n, r) ==> r == sqrt_floor(n),
    decreases n,
{
    if n == 0 {
        assert(is_sqrt_floor(0, 0));
    } else {
        lemma_sqrt_floor(n - 1);
        let r = sqrt_floor(n - 1);
        if (r + 1) * (r + 1) <= n {
            assert((r + 2) * (r + 2) > n) by (nonlinear_arith)
                requires
                    n - 1 < (r + 1) * (r + 1),
                    r >= 0,
            ;
            assert(is_sqrt_floor(n, r + 1));
        } else {
            assert(is_sqrt_floor(n, r));
        }
    }
    assert forall|r: int| is_sqrt_floor(n, r) implies r == sqrt_floor(n) by {
        lemma_sqrt_unique(n, r, sqrt_floor(n));
    }
}

proof fn lemma_sqrt_unique(n: int, a: int, b: int)
    requires
        is_sqrt_floor(n, a),
        is_sqrt_floor(n, b),
    ensures
        a == b,
{
    if a < b {
        assert((a + 1) * (a + 1) <= b * b) by (nonlinear_arith)
            requires
                0 <= a,
                a + 1 <= b,
        ;
    } else if b < a {
        assert((b + 1) * (b + 1) <= a * a) by (nonlinear_arith)
            requires
                0 <= b,
                b + 1 <= a,
        ;
    }
}

/// The rounded-down square root of a non-negative `n` up to 2^62.
pub fn isqrt(n: u64) -> (r: u64)
    requires
        n <= 4611686018427387904,
    ensures
        r == sqrt_floor(n as int),
        is_sqrt_floor(n as int, r as int),
{
    let mut lo: u64 = 0;
    let mut hi: u64 = 2147483649;
    assert(n < hi * hi) by (nonlinear_arith)
        requires
            n <= 4611686018427387904,
            hi == 2147483649,
    ;
    while lo + 1 < hi
        invariant
            lo < hi <= 2147483649,
            lo * lo <= n,
            n < hi * hi,
        decreases hi - lo,
    {
        let mid = lo + (hi - lo) / 2;
        assert(mid * mid <= 4611686018427387904) by (nonlinear_arith)
            requires
                mid <= 2147483648,
        ;
        if mid * mid <= n {
            lo = mid;
        } else {
            hi = mid;
        }
    }
    proof {
        assert(hi == lo + 1);
        assert(is_sqrt_floor(n as int, lo as int));
        lemma_sqrt_floor(n as int);
    }
    lo
}

/// Squared distance between two in-range points.
pub fn distance_sq(ax: i64, ay: i64, bx: i64, by: i64) -> (r: i64)
    requires
        in_range(ax as int),
        in_range(ay as int),
        in_range(bx as int),
        in_range(by as int),
    ensures
        r == dist_sq(ax as int, ay as int, bx as int, by as int),
        0 <= r <= 2305843009213693952,
{
    let dx = ax - bx;
    let dy = ay - by;
    assert(0 <= dx * dx <= 1152921504606846976) by (nonlinear_arith)
        requires
            -1073741824 <= dx <= 1073741824,
    ;
    assert(0 <= dy * dy <= 1152921504606846976) by (nonlinear_arith)
        requires
            -1073741824 <= dy <= 1073741824,
    ;
    dx * dx + dy * dy
}

/// The part of a `SPEED`-long step, taken along a segment whose length
/// rounded up is `dist`, that falls on an axis where the segment spans
/// `delta`: the share `SPEED * delta / dist`, rounded towards zero.
pub open spec fn step_share(delta: int, dist: int) -> int {
    if delta >= 0 {
        (SPEED * delta) / dist
    } else {
        -((SPEED * (-delta)) / dist)
    }
}

/// One frame of movement from `(x, y)` towards `(tx, ty)`: a target within
/// `SPEED` is reached (the third component is then `true`); otherwise the
/// position advances along the straight line to the target by `SPEED`
/// divided by the rounded-up length, each component rounded towards zero, so
/// that the step is never longer than `SPEED` (see `lemma_step_toward_bounded`).
pub open spec fn step_toward(x: int, y: int, tx: int, ty: int) -> (int, int, bool) {
    if dist_sq(tx, ty, x, y) <= SPEED * SPEED {
        (tx, ty, true)
    } else {
        let d = sqrt_ceil(dist_sq(tx, ty, x, y));
        (x + step_share(tx - x, d), y + step_share(ty - y, d), false)
    }
}

proof fn lemma_step_share_bounds(delta: int, dist: int)
    requires
        dist >= SPEED,
        -dist <= delta <= dist,
    ensures
        delta >= 0 ==> 0 <= step_share(delta, dist) <= delta,
        delta < 0 ==> delta <= step_share(delta, dist) <= 0,
        -SPEED <= step_share(delta, dist) <= SPEED,
{
    let a = if delta >= 0 {
        delta
    } else {
        -delta
    };
    vstd::arithmetic::mul::lemma_mul_inequality(SPEED as int, dist, a);
    vstd::arithmetic::mul::lemma_mul_inequality(a, dist, SPEED as int);
    vstd::arithmetic::div_mod::lemma_div_is_ordered(SPEED * a, dist * a, dist);
    vstd::arithmetic::div_mod::lemma_div_is_ordered(SPEED * a, dist * SPEED, dist);
    vstd::arithmetic::div_mod::lemma_div_multiples_vanish(a, dist);
    vstd::arithmetic::div_mod::lemma_div_multiples_vanish(SPEED as int, dist);
    vstd::arithmetic::mul::lemma_mul_is_commutative(a, dist);
    vstd::arithmetic::mul::lemma_mul_is_commutative(SPEED as int, dist);
    vstd::arithmetic::div_mod::lemma_div_pos_is_pos(SPEED * a, dist);
    assert(SPEED * a >= 0) by (nonlinear_arith)
        requires
            a >= 0,
    ;
}

/// The rounded-up length of a segment is at least the span on either axis,
/// its square at least the squared length, and it exceeds `SPEED` when the
/// segment is longer than `SPEED`.
proof fn lemma_sqrt_dominates(dx: int, dy: int)
    ensures
        ({
            let d = sqrt_ceil(dx * dx + dy * dy);
            &&& -d <= dx <= d
            &&& -d <= dy <= d
            &&& d * d >= dx * dx + dy * dy
            &&& d >= 0
            &&& dx * dx + dy * dy > SPEED * SPEED ==> d >= SPEED
        }),
{
    assert(dx * dx >= 0 && dy * dy >= 0) by (nonlinear_arith);
    lemma_sqrt_floor(dx * dx + dy * dy);
    let f = sqrt_floor(dx * dx + dy * dy);
    let d = sqrt_ceil(dx * dx + dy * dy);
    if dx > f {
        assert((f + 1) * (f + 1) <= dx * dx) by (nonlinear_arith)
            requires
                f >= 0,
                dx >= f + 1,
        ;
    }
    if dx < -f {
        assert((f + 1) * (f + 1) <= dx * dx) by (nonlinear_arith)
            requires
                f >= 0,
                -dx >= f + 1,
        ;
    }
    if dy > f {
        assert((f + 1) * (f + 1) <= dy * dy) by (nonlinear_arith)
            requires
                f >= 0,
                dy >= f + 1,
        ;
    }
    if dy < -f {
        assert((f + 1) * (f + 1) <= dy * dy) by (nonlinear_arith)
            requires
                f >= 0,
                -dy >= f + 1,
        ;
    }
    if dx * dx + dy * dy > SPEED * SPEED && f < SPEED {
        assert((f + 1) * (f + 1) <= SPEED * SPEED) by (nonlinear_arith)
            requires
                f >= 0,
                f + 1 <= SPEED,
        ;
    }
    assert(d >= f);
}

/// Rounding the shares towards zero after dividing by a length whose square
/// covers the squared span keeps the step within `SPEED`.
proof fn lemma_step_share_norm(dx: int, dy: int, d: int)
    requires
        d > 0,
        d * d >= dx * dx + dy * dy,
    ensures
        step_share(dx, d) * step_share(dx, d) + step_share(dy, d) * step_share(dy, d) <= SPEED
            * SPEED,
{
    let a = if dx >= 0 {
        dx
    } else {
        -dx
    };
    let b = if dy >= 0 {
        dy
    } else {
        -dy
    };
    assert(a * a == dx * dx && b * b == dy * dy) by (nonlinear_arith)
        requires
            a == dx || a == -dx,
            b == dy || b == -dy,
    ;
    let sa = SPEED * a;
    let sb = SPEED * b;
    assert(sa >= 0 && sb >= 0) by (nonlinear_arith)
        requires
            a >= 0,
            b >= 0,
            sa == SPEED * a,
            sb == SPEED * b,
    ;
    let qa = sa / d;
    let qb = sb / d;
    vstd::arithmetic::div_mod::lemma_fundamental_div_mod(sa, d);
    vstd::arithmetic::div_mod::lemma_fundamental_div_mod(sb, d);
    vstd::arithmetic::div_mod::lemma_mod_pos_bound(sa, d);
    vstd::arithmetic::div_mod::lemma_mod_pos_bound(sb, d);
    vstd::arithmetic::div_mod::lemma_div_pos_is_pos(sa, d);
    vstd::arithmetic::div_mod::lemma_div_pos_is_pos(sb, d);
    assert(qa * d <= sa && qb * d <= sb) by (nonlinear_arith)
        requires
            sa == d * qa + sa % d,
            sb == d * qb + sb % d,
            sa % d >= 0,
            sb % d >= 0,
    ;
    assert(qa * qa * (d * d) <= sa * sa) by (nonlinear_arith)
        requires
            0 <= qa * d <= sa,
            qa >= 0,
            d > 0,
    ;
    assert(qb * qb * (d * d) <= sb * sb) by (nonlinear_arith)
        requires
            0 <= qb * d <= sb,
            qb >= 0,
            d > 0,
    ;
    assert(sa * sa + sb * sb == SPEED * SPEED * (a * a + b * b)) by (nonlinear_arith)
        requires
            sa == SPEED * a,
            sb == SPEED * b,
    ;
    assert(qa * qa + qb * qb <= SPEED * SPEED) by (nonlinear_arith)
        requires
            qa * qa * (d * d) <= sa * sa,
            qb * qb * (d * d) <= sb * sb,
            sa * sa + sb * sb == SPEED * SPEED * (a * a + b * b),
            a * a + b * b <= d * d,
            d > 0,
    ;
    assert(step_share(dx, d) * step_share(dx, d) == qa * qa) by (nonlinear_arith)
        requires
            step_share(dx, d) == qa || step_share(dx, d) == -qa,
    ;
    assert(step_share(dy, d) * step_share(dy, d) == qb * qb) by (nonlinear_arith)
        requires
            step_share(dy, d) == qb || step_share(dy, d) == -qb,
    ;
}

/// A step never leaves the box spanned by the position and the target, and
/// is never longer than `SPEED`.
pub proof fn lemma_step_toward_bounded(x: int, y: int, tx: int, ty: int)
    ensures
        ({
            let (nx, ny, reached) = step_toward(x, y, tx, ty);
            &&& (x <= nx <= tx || tx <= nx <= x)
            &&& (y <= ny <= ty || ty <= ny <= y)
            &&& -SPEED <= nx - x <= SPEED
            &&& -SPEED <= ny - y <= SPEED
            &&& (nx - x) * (nx - x) + (ny - y) * (ny - y) <= SPEED * SPEED
            &&& reached ==> nx == tx && ny == ty
        }),
{
    let dx = tx - x;
    let dy = ty - y;
    assert(dist_sq(tx, ty, x, y) == dx * dx + dy * dy);
    lemma_sqrt_dominates(dx, dy);
    if dist_sq(tx, ty, x, y) <= SPEED * SPEED {
        if dx > SPEED || dx < -SPEED {
            assert(dx * dx > SPEED * SPEED) by (nonlinear_arith)
                requires
                    dx > SPEED || dx < -SPEED,
            ;
            assert(dy * dy >= 0) by (nonlinear_arith);
        }
        if dy > SPEED || dy < -SPEED {
            assert(dy * dy > SPEED * SPEED) by (nonlinear_arith)
                requires
                    dy > SPEED || dy < -SPEED,
            ;
            assert(dx * dx >= 0) by (nonlinear_arith);
        }
    } else {
        let d = sqrt_ceil(dx * dx + dy * dy);
        lemma_step_share_bounds(dx, d);
        lemma_step_share_bounds(dy, d);
        lemma_step_share_norm(dx, dy, d);
    }
}

/// Step component computed with non-negative arithmetic.
fn step_share_exec(delta: i64, dist: i64) -> (r: i64)
    requires
        dist >= SPEED,
        -dist <= delta <= dist,
        -1073741824 <= delta <= 1073741824,
    ensures
        r == step_share(delta as int, dist as int),
{
    let a: i64 = if delta >= 0 {
        delta
    } else {
        -delta
    };
    let q = (SPEED * a) / dist;
    if delta >= 0 {
        q
    } else {
        proof {
            lemma_step_share_bounds(delta as int, dist as int);
        }
        -q
    }
}

/// Move one frame from `(x, y)` towards `target` (see `step_toward`).
pub fn move_toward(x: i64, y: i64, target: (i64, i64)) -> (r: (i64, i64, bool))
    requires
        in_range(x as int),
        in_range(y as int),
        point_in_range(target),
    ensures
        (r.0 as int, r.1 as int, r.2) == step_toward(x as int, y as int, target.0 as int, target.1 as int),
        dist_sq(r.0 as int, r.1 as int, x as int, y as int) <= SPEED * SPEED,
        in_range(r.0 as int),
        in_range(r.1 as int),
{
    let (tx, ty) = target;
    let d2 = distance_sq(tx, ty, x, y);
    proof {
        lemma_step_toward_bounded(x as int, y as int, tx as int, ty as int);
    }
    if d2 <= SPEED * SPEED {
        (tx, ty, true)
    } else {
        let root = isqrt(d2 as u64);
        assert(root <= 2147483648) by (nonlinear_arith)
            requires
                root * root <= 2305843009213693952,
        ;
        let floor = root as i64;
        let d = if floor * floor == d2 {
            floor
        } else {
            floor + 1
        };
        proof {
            let dx = tx - x;
            let dy = ty - y;
            assert(d2 == dx * dx + dy * dy);
            lemma_sqrt_dominates(dx as int, dy as int);
            assert(floor == sqrt_floor(dx * dx + dy * dy));
            assert(d == sqrt_ceil(dx * dx + dy * dy));
        }
        let sx = step_share_exec(tx - x, d);
        let sy = step_share_exec(ty - y, d);
        (x + sx, y + sy, false)
    }
}

} // verus!
