//! 2D integer points and the exact geometric primitives shared by every
//! algorithm: cross products, distances, floor division, and the
//! point/segment predicates.

use vstd::prelude::*;

verus! {

/// Coordinates are kept within this bound so that every intermediate product
/// computed by the algorithms fits its machine integer type.
pub const COORD_LIMIT: i32 = 1_000_000;

/// A 2D point on the integer pixel grid.
#[derive(Clone, Copy, PartialEq, Eq, Structural, Debug)]
pub struct Point {
    pub x: i32,
    pub y: i32,
}

impl Point {
    pub open spec fn spec_in_bounds(self) -> bool {
        -COORD_LIMIT <= self.x <= COORD_LIMIT && -COORD_LIMIT <= self.y <= COORD_LIMIT
    }

    /// Whether both coordinates lie within `COORD_LIMIT`.
    pub fn in_bounds(self) -> (r: bool)
        ensures
            r == self.spec_in_bounds(),
    {
        -COORD_LIMIT <= self.x && self.x <= COORD_LIMIT && -COORD_LIMIT <= self.y
            && self.y <= COORD_LIMIT
    }

    pub fn new(x: i32, y: i32) -> (p: Point)
        ensures
            p == (Point { x, y }),
    {
        Point { x, y }
    }
}

/// The cross product of `a - o` and `b - o`: positive when `o`, `a`, `b`
/// make a counter-clockwise turn, negative on a clockwise turn, zero when
/// collinear.
pub open spec fn spec_cross(o: Point, a: Point, b: Point) -> int {
    (a.x - o.x) * (b.y - o.y) - (a.y - o.y) * (b.x - o.x)
}

/// Exact cross product of `a - o` and `b - o`.
pub fn cross_product(o: Point, a: Point, b: Point) -> (r: i64)
    requires
        o.spec_in_bounds(),
        a.spec_in_bounds(),
        b.spec_in_bounds(),
    ensures
        r == spec_cross(o, a, b),
{
    let ax = a.x as i64 - o.x as i64;
    let ay = a.y as i64 - o.y as i64;
    let bx = b.x as i64 - o.x as i64;
    let by = b.y as i64 - o.y as i64;
    proof {
        lemma_product_bound(ax as int, by as int, 2 * COORD_LIMIT as int);
        lemma_product_bound(ay as int, bx as int, 2 * COORD_LIMIT as int);
    }
    ax * by - ay * bx
}

/// The squared Euclidean distance between two points.
pub open spec fn spec_dist_sq(a: Point, b: Point) -> int {
    (b.x - a.x) * (b.x - a.x) + (b.y - a.y) * (b.y - a.y)
}

/// Exact squared distance between two points.
pub fn dist_sq(a: Point, b: Point) -> (r: i64)
    requires
        a.spec_in_bounds(),
        b.spec_in_bounds(),
    ensures
        r == spec_dist_sq(a, b),
{
    let dx = b.x as i64 - a.x as i64;
    let dy = b.y as i64 - a.y as i64;
    proof {
        lemma_product_bound(dx as int, dx as int, 2 * COORD_LIMIT as int);
        lemma_product_bound(dy as int, dy as int, 2 * COORD_LIMIT as int);
    }
    dx * dx + dy * dy
}

/// If both factors are bounded by `m` in magnitude, their product is bounded
/// by `m * m`.
pub proof fn lemma_product_bound(a: int, b: int, m: int)
    requires
        0 <= m,
        -m <= a <= m,
        -m <= b <= m,
    ensures
        -m * m <= a * b <= m * m,
{
    assert(-m * m <= a * b <= m * m) by (nonlinear_arith)
        requires
            0 <= m,
            -m <= a <= m,
            -m <= b <= m,
    ;
}

/// Floor division on mathematical integers; agrees with `/` on `int` for a
/// positive divisor.
pub open spec fn spec_div_floor(a: int, b: int) -> int {
    a / b
}

/// Floor division of `a` by a positive divisor `b`.
pub fn div_floor(a: i64, b: i64) -> (q: i64)
    requires
        0 < b < 0x4000_0000_0000_0000,
        -0x4000_0000_0000_0000 < a < 0x4000_0000_0000_0000,
    ensures
        q == spec_div_floor(a as int, b as int),
{
    if a >= 0 {
        let q = a / b;
        proof {
            vstd::arithmetic::div_mod::lemma_div_is_ordered_by_denominator(a as int, 1, b as int);
        }
        q
    } else {
        let n = -a;
        let q = (n + b - 1) / b;
        proof {
            let ai = a as int;
            let bi = b as int;
            let ni = n as int;
            vstd::arithmetic::div_mod::lemma_fundamental_div_mod(ni + bi - 1, bi);
            vstd::arithmetic::div_mod::lemma_fundamental_div_mod(ai, bi);
            vstd::arithmetic::div_mod::lemma_mod_bound(ni + bi - 1, bi);
            vstd::arithmetic::div_mod::lemma_mod_bound(ai, bi);
            assert(ai == -ni);
            assert((ni + bi - 1) / bi * bi + (ni + bi - 1) % bi == ni + bi - 1);
            assert(ai / bi * bi + ai % bi == ai);
            assert(-((ni + bi - 1) / bi) == ai / bi) by (nonlinear_arith)
                requires
                    bi > 0,
                    ai == -ni,
                    (ni + bi - 1) / bi * bi + (ni + bi - 1) % bi == ni + bi - 1,
                    ai / bi * bi + ai % bi == ai,
                    0 <= (ni + bi - 1) % bi < bi,
                    0 <= ai % bi < bi,
            ;
        }
        -q
    }
}

/// If the factors are bounded by `ma` and `mb` in magnitude, the product is
/// bounded by `ma * mb`.
pub proof fn lemma_product_bound2(a: int, b: int, ma: int, mb: int)
    requires
        0 <= ma,
        0 <= mb,
        -ma <= a <= ma,
        -mb <= b <= mb,
    ensures
        -ma * mb <= a * b <= ma * mb,
{
    assert(-ma * mb <= a * b <= ma * mb) by (nonlinear_arith)
        requires
            0 <= ma,
            0 <= mb,
            -ma <= a <= ma,
            -mb <= b <= mb,
    ;
}

/// The cross product of bounded points is bounded.
#[verifier::rlimit(50)]
pub proof fn lemma_cross_bound(o: Point, a: Point, b: Point)
    requires
        o.spec_in_bounds(),
        a.spec_in_bounds(),
        b.spec_in_bounds(),
    ensures
        -8_000_000_000_000 <= spec_cross(o, a, b) <= 8_000_000_000_000,
{
    assert(-8_000_000_000_000 <= spec_cross(o, a, b) <= 8_000_000_000_000) by (nonlinear_arith)
        requires
            o.spec_in_bounds(),
            a.spec_in_bounds(),
            b.spec_in_bounds(),
    ;
}

/// Adding a multiple of the divisor shifts the quotient and keeps the
/// remainder.
pub proof fn lemma_div_shift(a: int, k: int, d: int)
    requires
        d > 0,
    ensures
        (a + k * d) / d == a / d + k,
        (a + k * d) % d == a % d,
{
    vstd::arithmetic::div_mod::lemma_fundamental_div_mod(a, d);
    vstd::arithmetic::div_mod::lemma_mod_bound(a, d);
    assert(a + k * d == (a / d + k) * d + a % d) by (nonlinear_arith)
        requires
            a == d * (a / d) + a % d,
    ;
    vstd::arithmetic::div_mod::lemma_fundamental_div_mod_converse(
        a + k * d,
        d,
        a / d + k,
        a % d,
    );
}

/// Rounding division of `a` by a positive divisor `b`: the nearest integer to
/// `a / b`, halves rounding up.
pub open spec fn spec_div_round(a: int, b: int) -> int {
    (2 * a + b) / (2 * b)
}

/// Round `a / b` to the nearest integer for a positive divisor `b`.
pub fn div_round(a: i64, b: i64) -> (q: i64)
    requires
        0 < b < 0x1000_0000_0000_0000,
        -0x1000_0000_0000_0000 < a < 0x1000_0000_0000_0000,
    ensures
        q == spec_div_round(a as int, b as int),
{
    div_floor(2 * a + b, 2 * b)
}

/// Whether `p` lies exactly on the closed segment from `a` to `b`.
pub open spec fn spec_on_segment(a: Point, b: Point, p: Point) -> bool {
    &&& spec_cross(a, b, p) == 0
    &&& if a.x <= b.x {
        a.x <= p.x <= b.x
    } else {
        b.x <= p.x <= a.x
    }
    &&& if a.y <= b.y {
        a.y <= p.y <= b.y
    } else {
        b.y <= p.y <= a.y
    }
}

/// Exact test whether `p` lies on the closed segment from `a` to `b`.
pub fn on_segment(a: Point, b: Point, p: Point) -> (r: bool)
    requires
        a.spec_in_bounds(),
        b.spec_in_bounds(),
        p.spec_in_bounds(),
    ensures
        r == spec_on_segment(a, b, p),
{
    if cross_product(a, b, p) != 0 {
        return false;
    }
    let x_ok = if a.x <= b.x {
        a.x <= p.x && p.x <= b.x
    } else {
        b.x <= p.x && p.x <= a.x
    };
    let y_ok = if a.y <= b.y {
        a.y <= p.y && p.y <= b.y
    } else {
        b.y <= p.y && p.y <= a.y
    };
    x_ok && y_ok
}

} // verus!
