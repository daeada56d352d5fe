//! Positions and the integer geometry the simulation needs: squared
//! distances, an exact integer square root, and the straight-line movement
//! step agents take toward a waypoint.

use vstd::prelude::*;

use crate::COORD_LIMIT;

verus! {

/// A 2D world position in milli-units.
#[derive(Clone, Copy, PartialEq, Eq, Structural, Debug)]
pub struct Pos {
    pub x: i64,
    pub y: i64,
}

impl Pos {
    /// True when both coordinates are within the world coordinate bound.
    pub open spec fn bounded(self) -> bool {
        -COORD_LIMIT <= self.x <= COORD_LIMIT && -COORD_LIMIT <= self.y <= COORD_LIMIT
    }

    pub fn new(x: i64, y: i64) -> (p: Pos)
        ensures
            p.x == x,
            p.y == y,
    {
        Pos { x, y }
    }
}

/// The squared Euclidean distance between two positions.
pub open spec fn dist_sq_spec(a: Pos, b: Pos) -> int {
    (a.x - b.x) * (a.x - b.x) + (a.y - b.y) * (a.y - b.y)
}

/// The greatest `r` with `r * r <= n`.
pub open spec fn floor_sqrt(n: nat) -> nat
    decreases n,
{
    if n == 0 {
        0
    } else {
        let p = floor_sqrt((n - 1) as nat);
        if (p + 1) * (p + 1) <= n {
            p + 1
        } else {
            p
        }
    }
}

/// `floor_sqrt` is bracketed by the squares around `n`.
pub proof fn lemma_floor_sqrt_bounds(n: nat)
    ensures
        floor_sqrt(n) * floor_sqrt(n) <= n,
        n < (floor_sqrt(n) + 1) * (floor_sqrt(n) + 1),
    decreases n,
{
    if n > 0 {
        lemma_floor_sqrt_bounds((n - 1) as nat);
        let p = floor_sqrt((n - 1) as nat);
        let f = floor_sqrt(n);
        if (p + 1) * (p + 1) <= n {
            assert(n == (p + 1) * (p + 1));
            assert((f + 1) * (f + 1) > f * f) by (nonlinear_arith)
                requires
                    f >= 0,
            ;
        }
    } else {
        assert(floor_sqrt(n) == 0);
        assert(n < (floor_sqrt(n) + 1) * (floor_sqrt(n) + 1)) by (nonlinear_arith)
            requires
                n == 0,
                floor_sqrt(n) == 0,
        ;
    }
}

/// Any value bracketed the same way equals `floor_sqrt(n)`.
pub proof fn lemma_floor_sqrt_unique(n: nat, r: nat)
    requires
        r * r <= n,
        n < (r + 1) * (r + 1),
    ensures
        r == floor_sqrt(n),
{
    lemma_floor_sqrt_bounds(n);
    let f = floor_sqrt(n);
    if r < f {
        assert((r + 1) * (r + 1) <= f * f) by (nonlinear_arith)
            requires
                r + 1 <= f,
        ;
    }
    if f < r {
        assert((f + 1) * (f + 1) <= r * r) by (nonlinear_arith)
            requires
                f + 1 <= r,
        ;
    }
}

/// The squared distance between two bounded positions; it fits easily in
/// a u64 because both coordinates are within `COORD_LIMIT`.
pub fn dist_sq(a: Pos, b: Pos) -> (r: u64)
    requires
        a.bounded(),
        b.bounded(),
    ensures
        r == dist_sq_spec(a, b),
        r <= 8_000_000_000_000_000_000,
{
    let dx = a.x - b.x;
    let dy = a.y - b.y;
    proof {
        assert(dx * dx <= 4_000_000_000_000_000_000 && dx * dx >= 0) by (nonlinear_arith)
            requires
                -2_000_000_000 <= dx <= 2_000_000_000,
        ;
        assert(dy * dy <= 4_000_000_000_000_000_000 && dy * dy >= 0) by (nonlinear_arith)
            requires
                -2_000_000_000 <= dy <= 2_000_000_000,
        ;
    }
    (dx * dx + dy * dy) as u64
}

/// The exact integer square root, by bisection.
pub fn isqrt(n: u64) -> (r: u64)
    requires
        n <= 8_000_000_000_000_000_000,
    ensures
        r == floor_sqrt(n as nat),
{
    let mut lo: u64 = 0;
    let mut hi: u64 = 3_000_000_000;
    proof {
        assert(3_000_000_000i64 * 3_000_000_000i64 > 8_000_000_000_000_000_000) by (nonlinear_arith);
    }
    while hi - lo > 1
        invariant
            lo < hi <= 3_000_000_000,
            lo * lo <= n,
            hi * hi > n,
        decreases hi - lo,
    {
        let mid = lo + (hi - lo) / 2;
        proof {
            assert(mid * mid < 9_000_000_000_000_000_000) by (nonlinear_arith)
                requires
                    0 <= mid < 3_000_000_000u64,
            ;
        }
        if mid * mid <= n {
            lo = mid;
        } else {
            hi = mid;
        }
    }
    proof {
        lemma_floor_sqrt_unique(n as nat, lo as nat);
    }
    lo
}

/// How far one coordinate moves: the share of the step distance `d` that
/// falls on a delta of magnitude `delta`, for a straight line of length
/// `len` (rounded down).
pub open spec fn step_mag(delta: int, d: int, len: int) -> int {
    delta * d / len
}

/// Where one straight-line movement step of distance `d` from `a` toward
/// `b` lands: each coordinate advances by its proportional share of `d`
/// (rounded toward `a`), and a step reaching `b` lands exactly on `b`.
pub open spec fn moved_pos(a: Pos, b: Pos, d: int) -> Pos {
    if d * d >= dist_sq_spec(a, b) {
        b
    } else {
        let len = floor_sqrt(dist_sq_spec(a, b) as nat) as int;
        Pos {
            x: (a.x + if b.x >= a.x {
                step_mag(b.x - a.x, d, len)
            } else {
                -step_mag(a.x - b.x, d, len)
            }) as i64,
            y: (a.y + if b.y >= a.y {
                step_mag(b.y - a.y, d, len)
            } else {
                -step_mag(a.y - b.y, d, len)
            }) as i64,
        }
    }
}

/// One straight-line movement step from `a` toward `b` of distance `d`
/// (all in milli-units).
pub fn calculate_point(a: Pos, b: Pos, d: u64) -> (r: Pos)
    requires
        a.bounded(),
        b.bounded(),
    ensures
        r.bounded(),
        r == moved_pos(a, b, d as int),
{
    let dsq = dist_sq(a, b);
    if d >= 3_000_000_000 {
        proof {
            assert(d * d >= dsq) by (nonlinear_arith)
                requires
                    d >= 3_000_000_000u64,
                    dsq <= 8_000_000_000_000_000_000u64,
            ;
        }
        return b;
    }
    proof {
        assert(d * d < 9_000_000_000_000_000_000) by (nonlinear_arith)
            requires
                d < 3_000_000_000u64,
        ;
    }
    if d * d >= dsq {
        return b;
    }
    let len = isqrt(dsq);
    proof {
        lemma_floor_sqrt_bounds(dsq as nat);
        assert(len >= 1) by (nonlinear_arith)
            requires
                dsq < (len + 1) * (len + 1),
                dsq > 0,
                len >= 0,
        ;
        assert(len <= 3_000_000_000) by (nonlinear_arith)
            requires
                len * len <= dsq,
                dsq <= 8_000_000_000_000_000_000u64,
                len >= 0,
        ;
        assert(d <= len) by (nonlinear_arith)
            requires
                d * d < dsq,
                dsq < (len + 1) * (len + 1),
                d >= 0,
                len >= 0,
        ;
    }
    let dx: u64 = if b.x >= a.x {
        (b.x - a.x) as u64
    } else {
        (a.x - b.x) as u64
    };
    let dy: u64 = if b.y >= a.y {
        (b.y - a.y) as u64
    } else {
        (a.y - b.y) as u64
    };
    let sx = step_toward(dx, d, len);
    let sy = step_toward(dy, d, len);
    let rx: i64 = if b.x >= a.x {
        a.x + sx as i64
    } else {
        a.x - sx as i64
    };
    let ry: i64 = if b.y >= a.y {
        a.y + sy as i64
    } else {
        a.y - sy as i64
    };
    Pos { x: rx, y: ry }
}

/// One coordinate's share of a movement step: `delta * d / len`, which
/// never exceeds `delta` because `d` is at most `len`.
fn step_toward(delta: u64, d: u64, len: u64) -> (s: u64)
    requires
        delta <= 2_000_000_000,
        1 <= len,
        d <= len,
        len <= 3_000_000_000,
    ensures
        s == step_mag(delta as int, d as int, len as int),
        s <= delta,
{
    proof {
        assert(delta * d <= delta * len) by {
            vstd::arithmetic::mul::lemma_mul_inequality(d as int, len as int, delta as int);
            vstd::arithmetic::mul::lemma_mul_is_commutative(d as int, delta as int);
            vstd::arithmetic::mul::lemma_mul_is_commutative(len as int, delta as int);
        }
        assert(delta * len <= 6_000_000_000_000_000_000) by (nonlinear_arith)
            requires
                0 <= delta <= 2_000_000_000u64,
                0 <= len <= 3_000_000_000u64,
        ;
        assert(delta as int * d as int / (len as int) <= delta) by {
            vstd::arithmetic::div_mod::lemma_div_is_ordered(
                delta as int * d as int,
                delta as int * len as int,
                len as int,
            );
            vstd::arithmetic::div_mod::lemma_div_multiples_vanish(delta as int, len as int);
            vstd::arithmetic::mul::lemma_mul_is_commutative(delta as int, len as int);
        }
    }
    delta * d / len
}

} // verus!
