//! Conic rasterizers: midpoint circle and ellipse, and iteration-capped
//! parabola and hyperbola walks, each a resumable generator emitting one
//! full symmetric sample group per step.

use vstd::prelude::*;

use crate::gen::PixelSource;
use crate::geometry::COORD_LIMIT;
use crate::geometry::Point;
use crate::lines::black_at;
use crate::pixel::Pixel;

verus! {

/// The square of `r`.
pub open spec fn sq(r: int) -> int {
    r * r
}

/// The floor of the square root of `n`.
pub open spec fn spec_isqrt(n: int) -> int {
    choose|r: int| 0 <= r && #[trigger] sq(r) <= n < sq(r + 1)
}

/// Every nonnegative integer has a unique floor square root.
pub proof fn lemma_isqrt_exists(n: int) -> (r: int)
    requires
        n >= 0,
    ensures
        0 <= r && r * r <= n < (r + 1) * (r + 1),
        spec_isqrt(n) == r,
    decreases n,
{
    let r = if n == 0 {
        0int
    } else {
        let p = lemma_isqrt_exists(n - 1);
        if n == (p + 1) * (p + 1) {
            p + 1
        } else {
            p
        }
    };
    assert(0 <= r && r * r <= n < (r + 1) * (r + 1)) by (nonlinear_arith)
        requires
            n >= 0,
            r == if n == 0 {
                0int
            } else {
                if n == (spec_isqrt(n - 1) + 1) * (spec_isqrt(n - 1) + 1) {
                    spec_isqrt(n - 1) + 1
                } else {
                    spec_isqrt(n - 1)
                }
            },
            n > 0 ==> 0 <= spec_isqrt(n - 1) && spec_isqrt(n - 1) * spec_isqrt(n - 1) <= n - 1
                < (spec_isqrt(n - 1) + 1) * (spec_isqrt(n - 1) + 1),
    ;
    assert(sq(r) <= n < sq(r + 1));
    let w = choose|w: int| 0 <= w && #[trigger] sq(w) <= n < sq(w + 1);
    assert(w == r) by (nonlinear_arith)
        requires
            0 <= w && w * w <= n < (w + 1) * (w + 1),
            0 <= r && r * r <= n < (r + 1) * (r + 1),
    ;
    r
}

/// The floor of the square root of `n`.
pub fn isqrt(n: i64) -> (r: i64)
    requires
        0 <= n <= 0x2000_0000_0000_0000,
    ensures
        r == spec_isqrt(n as int),
        r * r <= n < (r + 1) * (r + 1),
        0 <= r <= 0x6000_0000,
{
    let mut r: i64 = 0;
    while next_sq_le(r, n)
        invariant
            0 <= r <= 0x6000_0000,
            r * r <= n <= 0x2000_0000_0000_0000,
        decreases n - r * r,
    {
        proof {
            assert(sq(r + 1) <= n ==> r + 1 <= 0x6000_0000 && (r + 1) * (r + 1) > r * r)
                by (nonlinear_arith)
                requires
                    0 <= r,
                    n <= 0x2000_0000_0000_0000,
            ;
        }
        r = r + 1;
    }
    proof {
        let w = lemma_isqrt_exists(n as int);
        assert(w == r as int) by (nonlinear_arith)
            requires
                0 <= w && w * w <= n < (w + 1) * (w + 1),
                0 <= r && r * r <= n < (r + 1) * (r + 1),
        ;
    }
    r
}

/// Whether `(r + 1)^2` still fits under `n`.
fn next_sq_le(r: i64, n: i64) -> (b: bool)
    requires
        0 <= r <= 0x6000_0000,
        0 <= n,
    ensures
        b == (sq(r + 1) <= n),
{
    proof {
        crate::geometry::lemma_product_bound(r + 1, r + 1, 0x6000_0001);
    }
    (r + 1) * (r + 1) <= n
}

/// The largest radius the circle and conic walks accept.
pub const RADIUS_LIMIT: i64 = 3_000_000;

/// One midpoint-circle state transition from arc point `(x, y)` with
/// decision variable `d`: x always advances, y retreats when the decision
/// variable is positive.
pub open spec fn circle_next(x: int, y: int, d: int) -> (int, int, int) {
    if d > 0 {
        (x + 1, y - 1, d + 4 * ((x + 1) - (y - 1)) + 10)
    } else {
        (x + 1, y, d + 4 * (x + 1) + 6)
    }
}

/// The arc points `(x, y)` visited by the midpoint-circle walk from the
/// given state, one per step, while `x <= y`.
pub open spec fn circle_walk(x: int, y: int, d: int) -> Seq<(int, int)>
    decreases y - x + 2,
{
    if x > y {
        Seq::empty()
    } else {
        seq![(x, y)] + circle_walk(circle_next(x, y, d).0, circle_next(x, y, d).1, circle_next(x, y, d).2)
    }
}

/// The eight symmetric samples emitted for arc point `(x, y)` of a circle
/// centered at `(cx, cy)`.
pub open spec fn circle_sym_batch(cx: int, cy: int, x: int, y: int) -> Seq<Pixel> {
    seq![
        black_at(cx + x, cy + y),
        black_at(cx - x, cy + y),
        black_at(cx + x, cy - y),
        black_at(cx - x, cy - y),
        black_at(cx + y, cy + x),
        black_at(cx - y, cy + x),
        black_at(cx + y, cy - x),
        black_at(cx - y, cy - x),
    ]
}

/// The complete batch sequence of the midpoint-circle rasterizer for radius
/// `r` about `center`: one batch of eight symmetric samples per arc step.
pub open spec fn circle_batches(center: Point, r: int) -> Seq<Seq<Pixel>> {
    circle_walk(0, r, 2 - 2 * r).map_values(
        |xy: (int, int)| circle_sym_batch(center.x as int, center.y as int, xy.0, xy.1),
    )
}

/// The exact decision-variable value as a function of the arc point; the
/// walk preserves it.
pub open spec fn circle_d_inv(x: int, y: int, d: int, r: int) -> bool {
    d == 2 * x * x + 8 * x + 2 * y * y - 6 * y + 2 + 4 * r - 2 * r * r
}

/// The circle walk preserves the closed form of its decision variable.
proof fn lemma_circle_next_d(x: int, y: int, d: int, r: int)
    requires
        circle_d_inv(x, y, d, r),
    ensures
        circle_d_inv(circle_next(x, y, d).0, circle_next(x, y, d).1, circle_next(x, y, d).2, r),
{
    let n = circle_next(x, y, d);
    assert(n.2 == 2 * n.0 * n.0 + 8 * n.0 + 2 * n.1 * n.1 - 6 * n.1 + 2 + 4 * r - 2 * r * r)
        by (nonlinear_arith)
        requires
            d == 2 * x * x + 8 * x + 2 * y * y - 6 * y + 2 + 4 * r - 2 * r * r,
            n == circle_next(x, y, d),
    ;
}

/// Every arc point of the circle walk stays within the starting octant
/// bounds.
pub proof fn lemma_circle_walk_entries(x: int, y: int, d: int, k: int)
    requires
        0 <= x,
        0 <= k < circle_walk(x, y, d).len(),
    ensures
        x <= circle_walk(x, y, d)[k].0 <= circle_walk(x, y, d)[k].1 <= y,
    decreases y - x + 2,
{
    if k > 0 {
        let n = circle_next(x, y, d);
        lemma_circle_walk_entries(n.0, n.1, n.2, k - 1);
    }
}

/// The in-flight state of the midpoint-circle rasterizer.
pub struct CircleGen {
    cx: i32,
    cy: i32,
    r: i64,
    x: i64,
    y: i64,
    d: i64,
}

impl PixelSource for CircleGen {
    closed spec fn wf(&self) -> bool {
        &&& (Point { x: self.cx, y: self.cy }).spec_in_bounds()
        &&& 0 <= self.r <= RADIUS_LIMIT
        &&& 0 <= self.x <= self.y + 2
        &&& -1 <= self.y <= self.r
        &&& circle_d_inv(self.x as int, self.y as int, self.d as int, self.r as int)
    }

    closed spec fn remaining(&self) -> Seq<Seq<Pixel>> {
        circle_walk(self.x as int, self.y as int, self.d as int).map_values(
            |xy: (int, int)| circle_sym_batch(self.cx as int, self.cy as int, xy.0, xy.1),
        )
    }

    fn step(&mut self) -> (r: Option<Vec<Pixel>>) {
        if self.x > self.y {
            return None;
        }
        let (ox, oy) = (self.x as i32, self.y as i32);
        let mut v: Vec<Pixel> = Vec::new();
        v.push(Pixel::new_black(self.cx + ox, self.cy + oy, 255));
        v.push(Pixel::new_black(self.cx - ox, self.cy + oy, 255));
        v.push(Pixel::new_black(self.cx + ox, self.cy - oy, 255));
        v.push(Pixel::new_black(self.cx - ox, self.cy - oy, 255));
        v.push(Pixel::new_black(self.cx + oy, self.cy + ox, 255));
        v.push(Pixel::new_black(self.cx - oy, self.cy + ox, 255));
        v.push(Pixel::new_black(self.cx + oy, self.cy - ox, 255));
        v.push(Pixel::new_black(self.cx - oy, self.cy - ox, 255));
        proof {
            lemma_circle_next_d(self.x as int, self.y as int, self.d as int, self.r as int);
            assert(-40_000_000_000_000 <= self.d <= 40_000_000_000_000) by (nonlinear_arith)
                requires
                    circle_d_inv(self.x as int, self.y as int, self.d as int, self.r as int),
                    0 <= self.x <= self.y + 2,
                    -1 <= self.y <= self.r,
                    0 <= self.r <= RADIUS_LIMIT,
            ;
        }
        self.x = self.x + 1;
        if self.d > 0 {
            self.y = self.y - 1;
            self.d = self.d + 4 * (self.x - self.y) + 10;
        } else {
            self.d = self.d + 4 * self.x + 6;
        }
        proof {
            let rem0 = old(self).remaining();
            assert(rem0[0] =~= v@);
            assert(rem0.skip(1) =~= self.remaining());
        }
        Some(v)
    }
}

/// Build the midpoint-circle rasterizer centered at `start` with radius
/// `floor(|start - end|)`, the truncated distance between the two clicked
/// points.
pub fn paint_circle(start: Point, end: Point) -> (g: CircleGen)
    requires
        start.spec_in_bounds(),
        end.spec_in_bounds(),
    ensures
        g.wf(),
        g.remaining() == circle_batches(start, spec_isqrt(crate::geometry::spec_dist_sq(start, end))),
{
    let d2 = crate::geometry::dist_sq(start, end);
    proof {
        crate::geometry::lemma_product_bound(
            end.x - start.x,
            end.x - start.x,
            2 * COORD_LIMIT as int,
        );
        crate::geometry::lemma_product_bound(
            end.y - start.y,
            end.y - start.y,
            2 * COORD_LIMIT as int,
        );
        assert(0 <= (end.x - start.x) * (end.x - start.x) && 0 <= (end.y - start.y) * (end.y
            - start.y)) by (nonlinear_arith);
    }
    let r = isqrt(d2);
    proof {
        assert(r <= RADIUS_LIMIT) by (nonlinear_arith)
            requires
                r * r <= d2,
                d2 <= 8_000_000_000_000,
                0 <= r,
        ;
        assert(circle_d_inv(0, r as int, 2 - 2 * r as int, r as int)) by (nonlinear_arith);
    }
    CircleGen { cx: start.x, cy: start.y, r, x: 0, y: r, d: 2 - 2 * r }
}

/// Circle symmetry: the full rasterized sample set of a circle is invariant
/// under reflection of either axis about the center and under swapping the
/// two axes, the eight symmetries of the square.
pub proof fn lemma_circle_symmetry(center: Point, r: int, p: Pixel)
    requires
        center.spec_in_bounds(),
        0 <= r <= RADIUS_LIMIT,
        crate::gen::samples_of(circle_batches(center, r)).contains(p),
    ensures
        crate::gen::samples_of(circle_batches(center, r)).contains(
            black_at(2 * center.x - p.pos.x, p.pos.y as int),
        ),
        crate::gen::samples_of(circle_batches(center, r)).contains(
            black_at(p.pos.x as int, 2 * center.y - p.pos.y),
        ),
        crate::gen::samples_of(circle_batches(center, r)).contains(
            black_at(
                center.x + (p.pos.y - center.y),
                center.y + (p.pos.x - center.x),
            ),
        ),
{
    let batches = circle_batches(center, r);
    let (i, j) = choose|i: int, j: int|
        0 <= i < batches.len() && 0 <= j < batches[i].len() && batches[i][j] == p;
    let walk = circle_walk(0, r, 2 - 2 * r);
    lemma_circle_walk_entries(0, r, 2 - 2 * r, i);
    let x = walk[i].0;
    let y = walk[i].1;
    let cx = center.x as int;
    let cy = center.y as int;
    let batch = circle_sym_batch(cx, cy, x, y);
    assert(batches[i] == batch);
    assert(0 <= x <= y <= r);
    let mx = black_at(2 * cx - p.pos.x, p.pos.y as int);
    let my = black_at(p.pos.x as int, 2 * cy - p.pos.y);
    let sw = black_at(cx + (p.pos.y - cy), cy + (p.pos.x - cx));
    if j == 0 {
        assert(batch[1] == mx && batch[2] == my && batch[4] == sw);
    } else if j == 1 {
        assert(batch[0] == mx && batch[3] == my && batch[6] == sw);
    } else if j == 2 {
        assert(batch[3] == mx && batch[0] == my && batch[5] == sw);
    } else if j == 3 {
        assert(batch[2] == mx && batch[1] == my && batch[7] == sw);
    } else if j == 4 {
        assert(batch[5] == mx && batch[6] == my && batch[0] == sw);
    } else if j == 5 {
        assert(batch[4] == mx && batch[7] == my && batch[2] == sw);
    } else if j == 6 {
        assert(batch[7] == mx && batch[4] == my && batch[1] == sw);
    } else {
        assert(j == 7);
        assert(batch[6] == mx && batch[5] == my && batch[3] == sw);
    }
}

/// The four symmetric samples emitted for point `(x, y)` about a center.
pub open spec fn quadrant_sym_batch(cx: int, cy: int, x: int, y: int) -> Seq<Pixel> {
    seq![
        black_at(cx + x, cy + y),
        black_at(cx - x, cy + y),
        black_at(cx + x, cy - y),
        black_at(cx - x, cy - y),
    ]
}

/// The largest semi-axis / focal parameter the conic walks accept.  This
/// is a machine limit of the 64-bit decision-variable arithmetic: the
/// ellipse's closed forms grow with the fourth power of the semi-axes, and
/// the capped walks accumulate per-step increments proportional to the
/// squared axes times the iteration cap.
pub const AXIS_LIMIT: i64 = 1_000;

/// The iteration cap bound for the open conic walks, likewise a machine
/// limit: the hyperbola's decision variable accumulates up to the squared
/// axis bound per step.
pub const ITER_LIMIT: u32 = 1_000_000;

/// The two-region midpoint-ellipse walk.  Decision variables are kept scaled
/// by four relative to the textbook form so that every value is an integer;
/// their signs, which alone drive the steps, are unchanged.  The region
/// switch is one-way: region 1 while `b^2 x < a^2 y`, then region 2 until
/// `y` drops below zero.
pub open spec fn ellipse_walk(
    asq: int,
    bsq: int,
    b: int,
    x: int,
    y: int,
    d1: int,
    d2: int,
    region1: bool,
) -> Seq<(int, int)>
    decreases (if region1 { 1int } else { 0int }), (if region1 { asq * y - bsq * x + asq + bsq } else { y + 1 }),
    when (region1 ==> (0 <= x && 0 <= y && 1 <= bsq && 0 <= asq && bsq * x <= asq * y))
    via ellipse_walk_dec
{
    if region1 {
        let yn = if d1 < 0 {
            y
        } else {
            y - 1
        };
        let d1n = if d1 < 0 {
            d1 + bsq * (8 * x + 12)
        } else {
            d1 + bsq * (8 * x + 12) + asq * (8 - 8 * y)
        };
        let xn = x + 1;
        let r1n = bsq * xn < asq * yn;
        let d2n = if !r1n {
            bsq * (2 * xn + 1) * (2 * xn + 1) + 4 * asq * (yn - 1) * (yn - 1) - 4 * asq * bsq
        } else {
            d2
        };
        seq![(x, y)] + ellipse_walk(asq, bsq, b, xn, yn, d1n, d2n, r1n)
    } else if y >= 0 {
        let xn = if d2 > 0 {
            x
        } else {
            x + 1
        };
        let d2n = if d2 > 0 {
            d2 + asq * (12 - 8 * y)
        } else {
            d2 + asq * (12 - 8 * y) + bsq * (8 * x + 8)
        };
        seq![(x, y)] + ellipse_walk(asq, bsq, b, xn, y - 1, d1, d2n, false)
    } else {
        Seq::empty()
    }
}

#[via_fn]
proof fn ellipse_walk_dec(
    asq: int,
    bsq: int,
    b: int,
    x: int,
    y: int,
    d1: int,
    d2: int,
    region1: bool,
) {
    if region1 {
        let yn = if d1 < 0 {
            y
        } else {
            y - 1
        };
        let xn = x + 1;
        if bsq * xn < asq * yn {
            assert(0 <= yn && asq * yn - bsq * xn + asq + bsq > 0 && asq * y - bsq * x + asq
                + bsq > asq * yn - bsq * xn + asq + bsq) by (nonlinear_arith)
                requires
                    0 <= x,
                    0 <= y,
                    1 <= bsq,
                    0 <= asq,
                    bsq * x <= asq * y,
                    yn == y || yn == y - 1,
                    xn == x + 1,
                    bsq * xn < asq * yn,
            ;
        }
    }
}

/// The complete batch sequence of the midpoint-ellipse rasterizer with
/// semi-axes `a`, `b` about `center`: one batch of four symmetric samples
/// per step.
pub open spec fn ellipse_batches(center: Point, a: int, b: int) -> Seq<Seq<Pixel>> {
    ellipse_walk(
        a * a,
        b * b,
        b,
        0,
        b,
        4 * b * b - 4 * a * a * b + a * a,
        0,
        true,
    ).map_values(|xy: (int, int)| quadrant_sym_batch(center.x as int, center.y as int, xy.0, xy.1))
}

/// The scaled region-1 ellipse decision variable as a function of the point.
pub open spec fn ellipse_d1_inv(asq: int, bsq: int, x: int, y: int, d1: int) -> bool {
    d1 == 4 * bsq * (x + 1) * (x + 1) + asq * (2 * y - 1) * (2 * y - 1) - 4 * asq * bsq
}

/// The scaled region-2 ellipse decision variable as a function of the point.
pub open spec fn ellipse_d2_inv(asq: int, bsq: int, x: int, y: int, d2: int) -> bool {
    d2 == bsq * (2 * x + 1) * (2 * x + 1) + 4 * asq * (y - 1) * (y - 1) - 4 * asq * bsq
}

/// The in-flight state of the midpoint-ellipse rasterizer.
pub struct EllipseGen {
    cx: i32,
    cy: i32,
    a: i64,
    b: i64,
    asq: i64,
    bsq: i64,
    x: i64,
    y: i64,
    d1: i64,
    d2: i64,
    region1: bool,
}

impl PixelSource for EllipseGen {
    closed spec fn wf(&self) -> bool {
        &&& (Point { x: self.cx, y: self.cy }).spec_in_bounds()
        &&& 1 <= self.a <= AXIS_LIMIT
        &&& 1 <= self.b <= AXIS_LIMIT
        &&& self.asq == self.a * self.a
        &&& self.bsq == self.b * self.b
        &&& self.region1 ==> {
            &&& 0 <= self.x
            &&& 0 <= self.y <= self.b
            &&& self.bsq * self.x <= self.asq * self.y
            &&& ellipse_d1_inv(
                self.asq as int,
                self.bsq as int,
                self.x as int,
                self.y as int,
                self.d1 as int,
            )
        }
        &&& !self.region1 ==> {
            &&& 0 <= self.x
            &&& -2 <= self.y <= self.b
            &&& self.x + self.y <= 1_100_000
            &&& self.bsq * self.x <= self.asq * self.b + self.bsq * (self.b + 3 - self.y)
            &&& ellipse_d2_inv(
                self.asq as int,
                self.bsq as int,
                self.x as int,
                self.y as int,
                self.d2 as int,
            )
        }
    }

    closed spec fn remaining(&self) -> Seq<Seq<Pixel>> {
        ellipse_walk(
            self.asq as int,
            self.bsq as int,
            self.b as int,
            self.x as int,
            self.y as int,
            self.d1 as int,
            self.d2 as int,
            self.region1,
        ).map_values(
            |xy: (int, int)| quadrant_sym_batch(self.cx as int, self.cy as int, xy.0, xy.1),
        )
    }

    fn step(&mut self) -> (r: Option<Vec<Pixel>>) {
        let ghost asq = self.asq as int;
        let ghost bsq = self.bsq as int;
        if self.region1 {
            proof {
                assert(0 <= asq <= 1_000_000 && 1 <= bsq <= 1_000_000) by (nonlinear_arith)
                    requires
                        asq == self.a as int * self.a as int,
                        bsq == self.b as int * self.b as int,
                        1 <= self.a <= AXIS_LIMIT,
                        1 <= self.b <= AXIS_LIMIT,
                ;
                lemma_ellipse_region1_bounds(
                    asq,
                    bsq,
                    self.a as int,
                    self.b as int,
                    self.x as int,
                    self.y as int,
                    self.d1 as int,
                );
                lemma_ellipse_step_region1(
                    asq,
                    bsq,
                    self.a as int,
                    self.b as int,
                    self.x as int,
                    self.y as int,
                    self.d1 as int,
                );
            }
            let v = quad_batch(self.cx, self.cy, self.x as i32, self.y as i32);
            let od1 = self.d1;
            self.d1 = self.d1 + self.bsq * (8 * self.x + 12);
            if od1 >= 0 {
                self.d1 = self.d1 + self.asq * (8 - 8 * self.y);
                self.y = self.y - 1;
            }
            self.x = self.x + 1;
            proof {
                assert(0 <= asq <= 1_000_000 && 0 <= bsq <= 1_000_000) by (nonlinear_arith)
                    requires
                        asq == self.a as int * self.a as int,
                        bsq == self.b as int * self.b as int,
                        1 <= self.a <= AXIS_LIMIT,
                        1 <= self.b <= AXIS_LIMIT,
                ;
                crate::geometry::lemma_product_bound2(bsq, self.x as int, 1_000_000, 1_100_000);
                crate::geometry::lemma_product_bound2(asq, self.y as int, 1_000_000, 1_100_000);
            }
            self.region1 = self.bsq * self.x < self.asq * self.y;
            if !self.region1 {
                let t1 = 2 * self.x + 1;
                proof {
                    crate::geometry::lemma_product_bound2(bsq, t1 as int, 1_000_000, 2_200_001);
                }
                let t2 = self.bsq * t1;
                proof {
                    crate::geometry::lemma_product_bound2(
                        t2 as int,
                        t1 as int,
                        2_200_001_000_000,
                        2_200_001,
                    );
                }
                let u1 = self.y - 1;
                proof {
                    crate::geometry::lemma_product_bound2(4 * asq, u1 as int, 4_000_000, 1_002);
                }
                let u2 = 4 * self.asq * u1;
                proof {
                    crate::geometry::lemma_product_bound2(u2 as int, u1 as int, 4_008_000_000, 1_002);
                    crate::geometry::lemma_product_bound2(4 * asq, bsq, 4_000_000, 1_000_000);
                }
                self.d2 = t2 * t1 + u2 * u1 - 4 * self.asq * self.bsq;
            }
            proof {
                let rem0 = old(self).remaining();
                assert(rem0[0] =~= v@);
                assert(rem0.skip(1) =~= self.remaining());
            }
            Some(v)
        } else if self.y >= 0 {
            proof {
                lemma_ellipse_region2_bounds(
                    asq,
                    bsq,
                    self.a as int,
                    self.b as int,
                    self.x as int,
                    self.y as int,
                    self.d2 as int,
                );
            }
            proof {
                lemma_ellipse_step_region2(
                    asq,
                    bsq,
                    self.a as int,
                    self.b as int,
                    self.x as int,
                    self.y as int,
                    self.d2 as int,
                );
            }
            let v = quad_batch(self.cx, self.cy, self.x as i32, self.y as i32);
            let od2 = self.d2;
            self.d2 = self.d2 + self.asq * (12 - 8 * self.y);
            if od2 <= 0 {
                self.d2 = self.d2 + self.bsq * (8 * self.x + 8);
                self.x = self.x + 1;
            }
            self.y = self.y - 1;
            proof {
                let rem0 = old(self).remaining();
                assert(rem0[0] =~= v@);
                assert(rem0.skip(1) =~= self.remaining());
            }
            Some(v)
        } else {
            None
        }
    }
}

/// The four symmetric samples about `(cx, cy)` for offset `(x, y)`.
fn quad_batch(cx: i32, cy: i32, x: i32, y: i32) -> (v: Vec<Pixel>)
    requires
        -COORD_LIMIT <= cx <= COORD_LIMIT,
        -COORD_LIMIT <= cy <= COORD_LIMIT,
        -2_000_000 <= x <= 2_000_000,
        -2_000_000 <= y <= 2_000_000,
    ensures
        v@ == quadrant_sym_batch(cx as int, cy as int, x as int, y as int),
{
    let mut v: Vec<Pixel> = Vec::new();
    v.push(Pixel::new_black(cx + x, cy + y, 255));
    v.push(Pixel::new_black(cx - x, cy + y, 255));
    v.push(Pixel::new_black(cx + x, cy - y, 255));
    v.push(Pixel::new_black(cx - x, cy - y, 255));
    proof {
        assert(v@ =~= quadrant_sym_batch(cx as int, cy as int, x as int, y as int));
    }
    v
}

/// Bounds on the region-1 ellipse state: the point and the decision variable
/// stay small.
#[verifier::rlimit(60)]
proof fn lemma_ellipse_region1_bounds(asq: int, bsq: int, a: int, b: int, x: int, y: int, d1: int)
    requires
        1 <= a <= AXIS_LIMIT,
        1 <= b <= AXIS_LIMIT,
        asq == a * a,
        bsq == b * b,
        0 <= x,
        0 <= y <= b,
        bsq * x <= asq * y,
        ellipse_d1_inv(asq, bsq, x, y, d1),
    ensures
        x <= 1_000_000,
        -0x40_0000_0000_0000 <= d1 <= 0x40_0000_0000_0000,
        bsq * (8 * x + 12) <= 0x2_0000_0000,
        -0x2_0000_0000 <= asq * (8 - 8 * y) <= 0x2_0000_0000,
{
    assert(x <= 1_000_000 && -0x40_0000_0000_0000 <= d1 <= 0x40_0000_0000_0000 && bsq * (8 * x
        + 12) <= 0x2_0000_0000 && -0x2_0000_0000 <= asq * (8 - 8 * y) <= 0x2_0000_0000)
        by (nonlinear_arith)
        requires
            1 <= a <= AXIS_LIMIT,
            1 <= b <= AXIS_LIMIT,
            asq == a * a,
            bsq == b * b,
            0 <= x,
            0 <= y <= b,
            bsq * x <= asq * y,
            d1 == 4 * bsq * (x + 1) * (x + 1) + asq * (2 * y - 1) * (2 * y - 1) - 4 * asq * bsq,
    ;
}

/// Bounds on the region-2 ellipse state.
#[verifier::rlimit(60)]
proof fn lemma_ellipse_region2_bounds(asq: int, bsq: int, a: int, b: int, x: int, y: int, d2: int)
    requires
        1 <= a <= AXIS_LIMIT,
        1 <= b <= AXIS_LIMIT,
        asq == a * a,
        bsq == b * b,
        0 <= x,
        -2 <= y <= b,
        x + y <= 1_100_000,
        bsq * x <= asq * b + bsq * (b + 3 - y),
        ellipse_d2_inv(asq, bsq, x, y, d2),
    ensures
        x <= 1_100_002,
        -0x40_0000_0000_0000 <= d2 <= 0x40_0000_0000_0000,
        -0x5_0000_0000 <= asq * (12 - 8 * y) <= 0x5_0000_0000,
        0 <= bsq * (8 * x + 8) <= 0x5_0000_0000,
{
    assert(x <= 1_100_002 && -0x40_0000_0000_0000 <= d2 <= 0x40_0000_0000_0000 && -0x5_0000_0000
        <= asq * (12 - 8 * y) <= 0x5_0000_0000 && 0 <= bsq * (8 * x + 8) <= 0x5_0000_0000)
        by (nonlinear_arith)
        requires
            1 <= a <= AXIS_LIMIT,
            1 <= b <= AXIS_LIMIT,
            asq == a * a,
            bsq == b * b,
            0 <= x,
            -2 <= y <= b,
            x + y <= 1_100_000,
            bsq * x <= asq * b + bsq * (b + 3 - y),
            d2 == bsq * (2 * x + 1) * (2 * x + 1) + 4 * asq * (y - 1) * (y - 1) - 4 * asq * bsq,
    ;
}

/// A region-1 ellipse step preserves the decision-variable closed forms and
/// the state bounds, in both the staying and the switching case.
#[verifier::rlimit(40)]
proof fn lemma_ellipse_step_region1(asq: int, bsq: int, a: int, b: int, x: int, y: int, d1: int)
    requires
        1 <= a <= AXIS_LIMIT,
        1 <= b <= AXIS_LIMIT,
        asq == a * a,
        bsq == b * b,
        0 <= x,
        0 <= y <= b,
        bsq * x <= asq * y,
        ellipse_d1_inv(asq, bsq, x, y, d1),
    ensures
        ({
            let yn = if d1 < 0 {
                y
            } else {
                y - 1
            };
            let d1n = if d1 < 0 {
                d1 + bsq * (8 * x + 12)
            } else {
                d1 + bsq * (8 * x + 12) + asq * (8 - 8 * y)
            };
            let xn = x + 1;
            let d2n = bsq * (2 * xn + 1) * (2 * xn + 1) + 4 * asq * (yn - 1) * (yn - 1) - 4 * asq
                * bsq;
            &&& ellipse_d1_inv(asq, bsq, xn, yn, d1n)
            &&& xn <= 1_000_001
            &&& -1 <= yn <= b
            &&& (bsq * xn < asq * yn ==> 0 <= yn && bsq * xn <= asq * yn)
            &&& (!(bsq * xn < asq * yn) ==> {
                &&& ellipse_d2_inv(asq, bsq, xn, yn, d2n)
                &&& xn + yn <= 1_100_000
                &&& bsq * xn <= asq * b + bsq * (b + 3 - yn)
                &&& 0 <= bsq * (2 * xn + 1) <= 5_000_000_000
            })
        }),
{
    let yn = if d1 < 0 {
        y
    } else {
        y - 1
    };
    let d1n = if d1 < 0 {
        d1 + bsq * (8 * x + 12)
    } else {
        d1 + bsq * (8 * x + 12) + asq * (8 - 8 * y)
    };
    let xn = x + 1;
    assert(ellipse_d1_inv(asq, bsq, xn, yn, d1n) && x <= 1_000_000) by (nonlinear_arith)
        requires
            1 <= a <= AXIS_LIMIT,
            1 <= b <= AXIS_LIMIT,
            asq == a * a,
            bsq == b * b,
            0 <= x,
            0 <= y <= b,
            bsq * x <= asq * y,
            d1 == 4 * bsq * (x + 1) * (x + 1) + asq * (2 * y - 1) * (2 * y - 1) - 4 * asq * bsq,
            yn == if d1 < 0 {
                y
            } else {
                y - 1
            },
            d1n == if d1 < 0 {
                d1 + bsq * (8 * x + 12)
            } else {
                d1 + bsq * (8 * x + 12) + asq * (8 - 8 * y)
            },
            xn == x + 1,
    ;
    assert((bsq * xn < asq * yn ==> 0 <= yn) && bsq * xn <= asq * b + bsq * (b + 3 - yn) && 0
        <= bsq * (2 * xn + 1) <= 5_000_000_000) by (nonlinear_arith)
        requires
            1 <= a <= AXIS_LIMIT,
            1 <= b <= AXIS_LIMIT,
            asq == a * a,
            bsq == b * b,
            0 <= x <= 1_000_000,
            0 <= y <= b,
            bsq * x <= asq * y,
            yn == y || yn == y - 1,
            xn == x + 1,
    ;
}

/// A region-2 ellipse step preserves the decision-variable closed form and
/// the state bounds.
#[verifier::rlimit(60)]
proof fn lemma_ellipse_step_region2(asq: int, bsq: int, a: int, b: int, x: int, y: int, d2: int)
    requires
        1 <= a <= AXIS_LIMIT,
        1 <= b <= AXIS_LIMIT,
        asq == a * a,
        bsq == b * b,
        0 <= x,
        0 <= y <= b,
        x + y <= 1_100_000,
        bsq * x <= asq * b + bsq * (b + 3 - y),
        ellipse_d2_inv(asq, bsq, x, y, d2),
    ensures
        ({
            let xn = if d2 > 0 {
                x
            } else {
                x + 1
            };
            let d2n = if d2 > 0 {
                d2 + asq * (12 - 8 * y)
            } else {
                d2 + asq * (12 - 8 * y) + bsq * (8 * x + 8)
            };
            &&& ellipse_d2_inv(asq, bsq, xn, y - 1, d2n)
            &&& xn + (y - 1) <= 1_100_000
            &&& bsq * xn <= asq * b + bsq * (b + 3 - (y - 1))
        }),
{
    let xn = if d2 > 0 {
        x
    } else {
        x + 1
    };
    let d2n = if d2 > 0 {
        d2 + asq * (12 - 8 * y)
    } else {
        d2 + asq * (12 - 8 * y) + bsq * (8 * x + 8)
    };
    assert(ellipse_d2_inv(asq, bsq, xn, y - 1, d2n) && bsq * xn <= asq * b + bsq * (b + 3 - (y
        - 1))) by (nonlinear_arith)
        requires
            asq >= 0,
            bsq >= 0,
            bsq * x <= asq * b + bsq * (b + 3 - y),
            d2 == bsq * (2 * x + 1) * (2 * x + 1) + 4 * asq * (y - 1) * (y - 1) - 4 * asq * bsq,
            xn == if d2 > 0 {
                x
            } else {
                x + 1
            },
            d2n == if d2 > 0 {
                d2 + asq * (12 - 8 * y)
            } else {
                d2 + asq * (12 - 8 * y) + bsq * (8 * x + 8)
            },
    ;
}

/// Build the midpoint-ellipse rasterizer with semi-axes `a`, `b` about
/// `center`.
pub fn paint_ellips(center: Point, a: i64, b: i64) -> (g: EllipseGen)
    requires
        center.spec_in_bounds(),
        1 <= a <= AXIS_LIMIT,
        1 <= b <= AXIS_LIMIT,
    ensures
        g.wf(),
        g.remaining() == ellipse_batches(center, a as int, b as int),
{
    proof {
        crate::geometry::lemma_product_bound(a as int, a as int, AXIS_LIMIT as int);
        crate::geometry::lemma_product_bound(b as int, b as int, AXIS_LIMIT as int);
    }
    let asq = a * a;
    let bsq = b * b;
    proof {
        crate::geometry::lemma_product_bound2(4 * asq as int, b as int, 4_000_000, 1_000);
        assert(0 <= asq && 0 <= bsq) by (nonlinear_arith)
            requires
                asq == a * a,
                bsq == b * b,
        ;
    }
    let d1 = 4 * bsq - 4 * asq * b + asq;
    let g = EllipseGen {
        cx: center.x,
        cy: center.y,
        a,
        b,
        asq,
        bsq,
        x: 0,
        y: b,
        d1,
        d2: 0,
        region1: true,
    };
    proof {
        assert(ellipse_d1_inv(asq as int, bsq as int, 0, b as int, d1 as int))
            by (nonlinear_arith)
            requires
                asq == a * a,
                bsq == b * b,
                1 <= a <= AXIS_LIMIT,
                1 <= b <= AXIS_LIMIT,
                d1 == 4 * bsq - 4 * asq * b + asq,
        ;
        assert(bsq * 0 <= asq * b && 0 <= asq <= 1_000_000 && 1 <= bsq <= 1_000_000)
            by (nonlinear_arith)
            requires
                asq == a * a,
                bsq == b * b,
                1 <= a <= AXIS_LIMIT,
                1 <= b <= AXIS_LIMIT,
        ;
        assert(d1 as int == 4 * (b as int) * (b as int) - 4 * (a as int) * (a as int) * (b
            as int) + (a as int) * (a as int)) by (nonlinear_arith)
            requires
                d1 == 4 * bsq - 4 * asq * b + asq,
                asq == a * a,
                bsq == b * b,
        ;
        assert(g.remaining() =~= ellipse_batches(center, a as int, b as int));
    }
    g
}

/// One step of the two-region parabola walk with focal parameter `p`.
/// Region 1 ends once `x` reaches `2p`; region 2 recomputes its decision
/// value from the curve equation each step.
pub open spec fn parabola_next(p: int, x: int, y: int, d1: int, region1: bool) -> (
    int,
    int,
    int,
    bool,
) {
    if region1 {
        let yn = if d1 < 0 {
            y
        } else {
            y + 1
        };
        let d1n = if d1 < 0 {
            d1 + 2 * x + 3
        } else {
            d1 + 2 * (x - p) + 3
        };
        let xn = x + 1;
        (xn, yn, d1n, xn < 2 * p)
    } else {
        let d2 = (y + 1) * (y + 1) - 4 * p * (x + 1);
        let xn = if d2 < 0 {
            x + 1
        } else {
            x
        };
        (xn, y + 1, d1, false)
    }
}

/// The points visited by the parabola walk, capped at `fuel` steps: the
/// walk has no natural terminus, so the iteration cap is part of its
/// definition.
pub open spec fn parabola_walk(p: int, x: int, y: int, d1: int, region1: bool, fuel: nat) -> Seq<
    (int, int),
>
    decreases fuel,
{
    if fuel == 0 {
        Seq::empty()
    } else {
        let n = parabola_next(p, x, y, d1, region1);
        seq![(x, y)] + parabola_walk(p, n.0, n.1, n.2, n.3, (fuel - 1) as nat)
    }
}

/// The complete batch sequence of the parabola rasterizer: one batch of
/// four symmetric samples per step, for `iterations` steps.
pub open spec fn parabola_batches(center: Point, p: int, iterations: nat) -> Seq<Seq<Pixel>> {
    parabola_walk(p, 0, 0, 1 - 2 * p, true, iterations).map_values(
        |xy: (int, int)| quadrant_sym_batch(center.x as int, center.y as int, xy.0, xy.1),
    )
}

/// The in-flight state of the parabola rasterizer.
pub struct ParabolaGen {
    cx: i32,
    cy: i32,
    p: i64,
    x: i64,
    y: i64,
    d1: i64,
    region1: bool,
    left: u32,
}

impl PixelSource for ParabolaGen {
    closed spec fn wf(&self) -> bool {
        &&& (Point { x: self.cx, y: self.cy }).spec_in_bounds()
        &&& 0 <= self.p <= AXIS_LIMIT
        &&& self.left <= ITER_LIMIT
        &&& 0 <= self.x && self.x + self.left <= ITER_LIMIT
        &&& 0 <= self.y && self.y + self.left <= ITER_LIMIT
        &&& -3_000 - (ITER_LIMIT - self.left) * 3_000_000 <= self.d1 <= 3_000 + (ITER_LIMIT
            - self.left) * 3_000_000
    }

    closed spec fn remaining(&self) -> Seq<Seq<Pixel>> {
        parabola_walk(
            self.p as int,
            self.x as int,
            self.y as int,
            self.d1 as int,
            self.region1,
            self.left as nat,
        ).map_values(
            |xy: (int, int)| quadrant_sym_batch(self.cx as int, self.cy as int, xy.0, xy.1),
        )
    }

    fn step(&mut self) -> (r: Option<Vec<Pixel>>) {
        if self.left == 0 {
            return None;
        }
        let v = quad_batch(self.cx, self.cy, self.x as i32, self.y as i32);
        if self.region1 {
            let od1 = self.d1;
            self.d1 = if od1 < 0 {
                self.d1 + 2 * self.x + 3
            } else {
                self.d1 + 2 * (self.x - self.p) + 3
            };
            if od1 >= 0 {
                self.y = self.y + 1;
            }
            self.x = self.x + 1;
            self.region1 = self.x < 2 * self.p;
        } else {
            proof {
                crate::geometry::lemma_product_bound2(
                    self.y as int + 1,
                    self.y as int + 1,
                    1_000_001,
                    1_000_001,
                );
                crate::geometry::lemma_product_bound2(
                    4 * self.p as int,
                    self.x as int + 1,
                    4_000,
                    1_000_001,
                );
            }
            let d2 = (self.y + 1) * (self.y + 1) - 4 * self.p * (self.x + 1);
            if d2 < 0 {
                self.x = self.x + 1;
            }
            self.y = self.y + 1;
        }
        self.left = self.left - 1;
        proof {
            let rem0 = old(self).remaining();
            assert(rem0[0] =~= v@);
            assert(rem0.skip(1) =~= self.remaining());
        }
        Some(v)
    }
}

/// Build the parabola rasterizer with focal parameter `p` about `center`,
/// capped at `max_iterations` steps.
pub fn paint_parabola(center: Point, p: i64, max_iterations: u32) -> (g: ParabolaGen)
    requires
        center.spec_in_bounds(),
        0 <= p <= AXIS_LIMIT,
        max_iterations <= ITER_LIMIT,
    ensures
        g.wf(),
        g.remaining() == parabola_batches(center, p as int, max_iterations as nat),
{
    let g = ParabolaGen {
        cx: center.x,
        cy: center.y,
        p,
        x: 0,
        y: 0,
        d1: 1 - 2 * p,
        region1: true,
        left: max_iterations,
    };
    proof {
        assert(g.remaining() =~= parabola_batches(center, p as int, max_iterations as nat));
    }
    g
}

/// One step of the two-region hyperbola walk with squared semi-axes `asq`,
/// `bsq`.  Region 1 ends once `b^2 x` exceeds `a^2 y`; region 2 recomputes
/// its decision value from the curve equation each step.
pub open spec fn hyperbola_next(
    asq: int,
    bsq: int,
    x: int,
    y: int,
    d1: int,
    region1: bool,
) -> (int, int, int, bool) {
    if region1 {
        let yn = if d1 < 0 {
            y
        } else {
            y + 1
        };
        let d1n = if d1 < 0 {
            d1 + 2 * bsq * (x + 1)
        } else {
            d1 + 2 * bsq * (x + 1) - 2 * asq * (y + 1)
        };
        let xn = x + 1;
        (xn, yn, d1n, !(bsq * xn > asq * yn))
    } else {
        let d2 = bsq * (x + 1) * (x + 1) - asq * (y + 1) * (y + 1) - asq * bsq;
        let xn = if d2 < 0 {
            x + 1
        } else {
            x
        };
        (xn, y + 1, d1, false)
    }
}

/// The points visited by the hyperbola walk, capped at `fuel` steps.
pub open spec fn hyperbola_walk(
    asq: int,
    bsq: int,
    x: int,
    y: int,
    d1: int,
    region1: bool,
    fuel: nat,
) -> Seq<(int, int)>
    decreases fuel,
{
    if fuel == 0 {
        Seq::empty()
    } else {
        let n = hyperbola_next(asq, bsq, x, y, d1, region1);
        seq![(x, y)] + hyperbola_walk(asq, bsq, n.0, n.1, n.2, n.3, (fuel - 1) as nat)
    }
}

/// The complete batch sequence of the hyperbola rasterizer with semi-axes
/// `a`, `b`: one batch of four symmetric samples per step, for `iterations`
/// steps, starting from the vertex `(a, 0)`.
pub open spec fn hyperbola_batches(center: Point, a: int, b: int, iterations: nat) -> Seq<
    Seq<Pixel>,
> {
    hyperbola_walk(a * a, b * b, a, 0, b * b * (2 * a - 1), true, iterations).map_values(
        |xy: (int, int)| quadrant_sym_batch(center.x as int, center.y as int, xy.0, xy.1),
    )
}

/// The in-flight state of the hyperbola rasterizer.
pub struct HyperbolaGen {
    cx: i32,
    cy: i32,
    a: i64,
    b: i64,
    asq: i64,
    bsq: i64,
    x: i64,
    y: i64,
    d1: i64,
    region1: bool,
    left: u32,
}

impl PixelSource for HyperbolaGen {
    closed spec fn wf(&self) -> bool {
        &&& (Point { x: self.cx, y: self.cy }).spec_in_bounds()
        &&& 0 <= self.a <= AXIS_LIMIT
        &&& 0 <= self.b <= AXIS_LIMIT
        &&& self.asq == self.a * self.a
        &&& self.bsq == self.b * self.b
        &&& self.left <= ITER_LIMIT
        &&& 0 <= self.x && self.x + self.left <= ITER_LIMIT + AXIS_LIMIT
        &&& 0 <= self.y && self.y + self.left <= ITER_LIMIT
        &&& -3_000_000_000 - (ITER_LIMIT - self.left) * 5_000_000_000_000 <= self.d1
            <= 3_000_000_000 + (ITER_LIMIT - self.left) * 5_000_000_000_000
    }

    closed spec fn remaining(&self) -> Seq<Seq<Pixel>> {
        hyperbola_walk(
            self.asq as int,
            self.bsq as int,
            self.x as int,
            self.y as int,
            self.d1 as int,
            self.region1,
            self.left as nat,
        ).map_values(
            |xy: (int, int)| quadrant_sym_batch(self.cx as int, self.cy as int, xy.0, xy.1),
        )
    }

    fn step(&mut self) -> (r: Option<Vec<Pixel>>) {
        let ghost asq = self.asq as int;
        let ghost bsq = self.bsq as int;
        if self.left == 0 {
            return None;
        }
        proof {
            assert(0 <= asq <= 1_000_000 && 0 <= bsq <= 1_000_000) by (nonlinear_arith)
                requires
                    asq == self.a as int * self.a as int,
                    bsq == self.b as int * self.b as int,
                    0 <= self.a <= AXIS_LIMIT,
                    0 <= self.b <= AXIS_LIMIT,
            ;
        }
        let v = quad_batch(self.cx, self.cy, self.x as i32, self.y as i32);
        if self.region1 {
            proof {
                crate::geometry::lemma_product_bound2(
                    2 * bsq,
                    self.x as int + 1,
                    2_000_000,
                    1_002_000,
                );
                crate::geometry::lemma_product_bound2(
                    2 * asq,
                    self.y as int + 1,
                    2_000_000,
                    1_002_000,
                );
            }
            let od1 = self.d1;
            self.d1 = self.d1 + 2 * self.bsq * (self.x + 1);
            if od1 >= 0 {
                self.d1 = self.d1 - 2 * self.asq * (self.y + 1);
                self.y = self.y + 1;
            }
            self.x = self.x + 1;
            proof {
                crate::geometry::lemma_product_bound2(bsq, self.x as int, 1_000_000, 1_200_000);
                crate::geometry::lemma_product_bound2(asq, self.y as int, 1_000_000, 1_200_000);
            }
            self.region1 = !(self.bsq * self.x > self.asq * self.y);
        } else {
            let t1 = self.x + 1;
            proof {
                crate::geometry::lemma_product_bound2(bsq, t1 as int, 1_000_000, 1_200_000);
            }
            let t2 = self.bsq * t1;
            let u1 = self.y + 1;
            proof {
                crate::geometry::lemma_product_bound2(
                    t2 as int,
                    t1 as int,
                    1_200_000_000_000,
                    1_200_000,
                );
                crate::geometry::lemma_product_bound2(asq, u1 as int, 1_000_000, 1_200_000);
            }
            let u2 = self.asq * u1;
            proof {
                crate::geometry::lemma_product_bound2(
                    u2 as int,
                    u1 as int,
                    1_200_000_000_000,
                    1_200_000,
                );
                crate::geometry::lemma_product_bound2(asq, bsq, 1_000_000, 1_000_000);
            }
            let d2 = t2 * t1 - u2 * u1 - self.asq * self.bsq;
            if d2 < 0 {
                self.x = self.x + 1;
            }
            self.y = self.y + 1;
            proof {
                assert(d2 as int == bsq * (old(self).x as int + 1) * (old(self).x as int + 1)
                    - asq * (old(self).y as int + 1) * (old(self).y as int + 1) - asq * bsq);
            }
        }
        self.left = self.left - 1;
        proof {
            let rem0 = old(self).remaining();
            assert(rem0[0] =~= v@);
            assert(rem0.skip(1) =~= self.remaining());
        }
        Some(v)
    }
}

/// Build the hyperbola rasterizer with semi-axes `a`, `b` about `center`,
/// capped at `max_iterations` steps.
pub fn paint_hyperbola(center: Point, a: i64, b: i64, max_iterations: u32) -> (g: HyperbolaGen)
    requires
        center.spec_in_bounds(),
        0 <= a <= AXIS_LIMIT,
        0 <= b <= AXIS_LIMIT,
        max_iterations <= ITER_LIMIT,
    ensures
        g.wf(),
        g.remaining() == hyperbola_batches(center, a as int, b as int, max_iterations as nat),
{
    proof {
        crate::geometry::lemma_product_bound(a as int, a as int, AXIS_LIMIT as int);
        crate::geometry::lemma_product_bound(b as int, b as int, AXIS_LIMIT as int);
    }
    let asq = a * a;
    let bsq = b * b;
    proof {
        crate::geometry::lemma_product_bound2(bsq as int, 2 * a as int - 1, 1_000_000, 2_001);
    }
    let g = HyperbolaGen {
        cx: center.x,
        cy: center.y,
        a,
        b,
        asq,
        bsq,
        x: a,
        y: 0,
        d1: bsq * (2 * a - 1),
        region1: true,
        left: max_iterations,
    };
    proof {
        assert(0 <= asq && 0 <= bsq) by (nonlinear_arith)
            requires
                asq == a * a,
                bsq == b * b,
        ;
        assert(g.d1 as int == (b as int) * (b as int) * (2 * (a as int) - 1)) by (nonlinear_arith)
            requires
                g.d1 == bsq * (2 * a - 1),
                bsq == b * b,
        ;
        assert(g.remaining() =~= hyperbola_batches(
            center,
            a as int,
            b as int,
            max_iterations as nat,
        ));
    }
    g
}

} // verus!
