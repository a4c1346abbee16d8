//! Exact integer geometry: squared Euclidean distances, an integer
//! square root, and clamped movement of a point toward a target.
//!
//! Coordinates are world units (see `CELL_WORLD` in the crate root) and
//! stay within `WORLD_LIMIT` in magnitude, so squared distances fit
//! comfortably in 128-bit arithmetic.

use vstd::prelude::*;
use vstd::arithmetic::div_mod::{lemma_div_is_ordered, lemma_div_multiples_vanish};
use vstd::arithmetic::mul::lemma_mul_inequality;
use crate::WORLD_LIMIT;

verus! {

/// Whether a world coordinate is within the simulation's coordinate bound.
pub open spec fn in_world(v: int) -> bool {
    -WORLD_LIMIT <= v <= WORLD_LIMIT
}

/// World coordinates that map back to an `i32` grid cell under floor
/// division by the cell size: the span of cells `-2^31` through
/// `2^31 - 1`, cell centers included.
pub open spec fn pos_in_cell_range(v: int) -> bool {
    -85_899_345_920_000 <= v < 85_899_345_920_000
}

/// Squared Euclidean distance between two points.
pub open spec fn dist_sq(x1: int, y1: int, x2: int, y2: int) -> int {
    (x1 - x2) * (x1 - x2) + (y1 - y2) * (y1 - y2)
}

/// Mathematical floor of the square root of `n` (0 for negative `n`).
pub open spec fn sqrt_floor(n: int) -> int
    decreases n,
{
    if n <= 0 {
        0
    } else {
        let r = sqrt_floor(n - 1);
        if (r + 1) * (r + 1) <= n {
            r + 1
        } else {
            r
        }
    }
}

/// `sqrt_floor(n)` is the unique `r >= 0` with `r * r <= n < (r + 1) * (r + 1)`.
pub proof fn lemma_sqrt_floor_bounds(n: int)
    requires
        n >= 0,
    ensures
        0 <= sqrt_floor(n),
        sqrt_floor(n) * sqrt_floor(n) <= n,
        n < (sqrt_floor(n) + 1) * (sqrt_floor(n) + 1),
    decreases n,
{
    if n > 0 {
        lemma_sqrt_floor_bounds(n - 1);
        let r = sqrt_floor(n - 1);
        if (r + 1) * (r + 1) <= n {
            assert((r + 1 + 1) * (r + 1 + 1) > n) by (nonlinear_arith)
                requires
                    r >= 0,
                    n - 1 < (r + 1) * (r + 1),
                    (r + 1) * (r + 1) <= n,
            ;
        }
    }
}

/// Any `r` satisfying the square-root bracketing equals `sqrt_floor(n)`.
pub proof fn lemma_sqrt_floor_unique(n: int, r: int)
    requires
        n >= 0,
        r >= 0,
        r * r <= n,
        n < (r + 1) * (r + 1),
    ensures
        r == sqrt_floor(n),
{
    let s = sqrt_floor(n);
    lemma_sqrt_floor_bounds(n);
    if r < s {
        assert((r + 1) * (r + 1) <= s * s) by (nonlinear_arith)
            requires
                0 <= r,
                r + 1 <= s,
        ;
    }
    if s < r {
        assert((s + 1) * (s + 1) <= r * r) by (nonlinear_arith)
            requires
                0 <= s,
                s + 1 <= r,
        ;
    }
}

/// Integer square root by bisection.
pub fn isqrt_u128(n: u128) -> (r: u128)
    ensures
        r == sqrt_floor(n as int),
        r < 0x1_0000_0000_0000_0000,
{
    let mut lo: u128 = 0;
    let mut hi: u128 = 0x1_0000_0000_0000_0000;
    proof {
        assert((0x1_0000_0000_0000_0000 as int) * (0x1_0000_0000_0000_0000 as int) > n as int);
    }
    while lo + 1 < hi
        invariant
            lo < hi,
            hi <= 0x1_0000_0000_0000_0000,
            (lo as int) * (lo as int) <= n as int,
            (n as int) < (hi as int) * (hi as int),
        decreases hi - lo,
    {
        let mid = lo + (hi - lo) / 2;
        proof {
            assert((mid as int) * (mid as int) <= (0xffff_ffff_ffff_ffff as int)
                * (0xffff_ffff_ffff_ffff as int)) by (nonlinear_arith)
                requires
                    0 <= mid as int <= 0xffff_ffff_ffff_ffff as int,
            ;
        }
        let sq = mid * mid;
        if sq <= n {
            lo = mid;
        } else {
            hi = mid;
        }
    }
    proof {
        lemma_sqrt_floor_unique(n as int, lo as int);
    }
    lo
}

/// Squared distance between two in-range world points, exactly.
pub fn dist_sq_world(x1: i64, y1: i64, x2: i64, y2: i64) -> (d: u128)
    requires
        in_world(x1 as int),
        in_world(y1 as int),
        in_world(x2 as int),
        in_world(y2 as int),
    ensures
        d == dist_sq(x1 as int, y1 as int, x2 as int, y2 as int),
{
    let dx = x1 as i128 - x2 as i128;
    let dy = y1 as i128 - y2 as i128;
    proof {
        assert(0 <= dx * dx <= 40_000_000_000_000_000_000_000_000_000int) by (nonlinear_arith)
            requires
                -200_000_000_000_000 <= dx <= 200_000_000_000_000,
        ;
        assert(0 <= dy * dy <= 40_000_000_000_000_000_000_000_000_000int) by (nonlinear_arith)
            requires
                -200_000_000_000_000 <= dy <= 200_000_000_000_000,
        ;
    }
    (dx * dx + dy * dy) as u128
}

/// One axis of `move_toward`: `from` moved `step`-scaled toward `to`,
/// where `dist` is the full Euclidean distance to the target.
pub open spec fn move_axis(from: int, to: int, step: int, dist: int) -> int {
    if to >= from {
        from + (to - from) * step / dist
    } else {
        from - (from - to) * step / dist
    }
}

/// New x coordinate after moving `step` world units from `(x, y)`
/// straight toward `(tx, ty)`, snapping onto the target when the step
/// would reach or overshoot it.
pub open spec fn move_toward_x(x: int, y: int, tx: int, ty: int, step: int) -> int {
    let dist = sqrt_floor(dist_sq(x, y, tx, ty));
    if step >= dist {
        tx
    } else {
        move_axis(x, tx, step, dist)
    }
}

/// New y coordinate after moving `step` world units toward the target.
pub open spec fn move_toward_y(x: int, y: int, tx: int, ty: int, step: int) -> int {
    let dist = sqrt_floor(dist_sq(x, y, tx, ty));
    if step >= dist {
        ty
    } else {
        move_axis(y, ty, step, dist)
    }
}

/// Moving toward a target never leaves the interval between the start
/// and the target on either axis.
pub proof fn lemma_move_toward_between(x: int, y: int, tx: int, ty: int, step: int)
    requires
        0 <= step,
    ensures
        x <= tx ==> x <= move_toward_x(x, y, tx, ty, step) <= tx,
        tx <= x ==> tx <= move_toward_x(x, y, tx, ty, step) <= x,
        y <= ty ==> y <= move_toward_y(x, y, tx, ty, step) <= ty,
        ty <= y ==> ty <= move_toward_y(x, y, tx, ty, step) <= y,
{
    let d2 = dist_sq(x, y, tx, ty);
    assert((x - tx) * (x - tx) >= 0 && (y - ty) * (y - ty) >= 0) by (nonlinear_arith);
    lemma_sqrt_floor_bounds(d2);
    let dist = sqrt_floor(d2);
    if step < dist {
        if tx >= x {
            lemma_move_fraction_bounded(tx - x, step, dist);
        } else {
            lemma_move_fraction_bounded(x - tx, step, dist);
        }
        if ty >= y {
            lemma_move_fraction_bounded(ty - y, step, dist);
        } else {
            lemma_move_fraction_bounded(y - ty, step, dist);
        }
    }
}

/// Moves `(x, y)` by `step` world units straight toward `(tx, ty)`,
/// never overshooting: the result lies between the old position and the
/// target on each axis.
pub fn move_toward(x: i64, y: i64, tx: i64, ty: i64, step: u64) -> (r: (i64, i64))
    requires
        in_world(x as int),
        in_world(y as int),
        in_world(tx as int),
        in_world(ty as int),
    ensures
        r.0 == move_toward_x(x as int, y as int, tx as int, ty as int, step as int),
        r.1 == move_toward_y(x as int, y as int, tx as int, ty as int, step as int),
        in_world(r.0 as int),
        in_world(r.1 as int),
        x <= tx ==> x <= r.0 <= tx,
        tx <= x ==> tx <= r.0 <= x,
        y <= ty ==> y <= r.1 <= ty,
        ty <= y ==> ty <= r.1 <= y,
{
    let d2 = dist_sq_world(x, y, tx, ty);
    let dist = isqrt_u128(d2);
    proof {
        lemma_sqrt_floor_bounds(d2 as int);
    }
    if step as u128 >= dist {
        return (tx, ty);
    }
    // step < dist, so dist >= 1 and neither division below is by zero.
    let adx = (if tx >= x { tx - x } else { x - tx }) as u128;
    let ady = (if ty >= y { ty - y } else { y - ty }) as u128;
    proof {
        lemma_move_fraction_bounded(adx as int, step as int, dist as int);
        lemma_move_fraction_bounded(ady as int, step as int, dist as int);
        assert(adx * (step as u128) <= 3_689_348_814_741_910_323_000_000_000_000_000int)
            by (nonlinear_arith)
            requires
                0 <= adx <= 200_000_000_000_000,
                0 <= step as u128 <= 18_446_744_073_709_551_615,
        ;
        assert(ady * (step as u128) <= 3_689_348_814_741_910_323_000_000_000_000_000int)
            by (nonlinear_arith)
            requires
                0 <= ady <= 200_000_000_000_000,
                0 <= step as u128 <= 18_446_744_073_709_551_615,
        ;
    }
    let mx = adx * step as u128 / dist;
    let my = ady * step as u128 / dist;
    let nx = if tx >= x { x + mx as i64 } else { x - mx as i64 };
    let ny = if ty >= y { y + my as i64 } else { y - my as i64 };
    (nx, ny)
}

/// The scaled move along one axis never exceeds that axis's distance.
proof fn lemma_move_fraction_bounded(a: int, step: int, dist: int)
    requires
        0 <= a,
        0 <= step < dist,
    ensures
        0 <= a * step / dist <= a,
        a * step <= a * dist,
{
    lemma_mul_inequality(step, dist, a);
    assert(a * step == step * a && a * dist == dist * a) by (nonlinear_arith);
    lemma_div_is_ordered(a * step, a * dist, dist);
    lemma_div_multiples_vanish(a, dist);
    assert(dist * a == a * dist) by (nonlinear_arith);
    assert(a * step >= 0) by (nonlinear_arith)
        requires
            a >= 0,
            step >= 0,
    ;
    vstd::arithmetic::div_mod::lemma_div_pos_is_pos(a * step, dist);
}

} // verus!
