//! Line rasterizers: DDA, Bresenham, and Wu, each a resumable generator of
//! sample batches whose exact output is pinned down by a specification
//! recurrence.

use vstd::prelude::*;

use crate::gen::PixelSource;
use crate::geometry::COORD_LIMIT;
use crate::geometry::Point;
use crate::pixel::Pixel;

verus! {

/// The magnitude of `b - a`.
pub open spec fn abs_delta(a: int, b: int) -> int {
    if b >= a {
        b - a
    } else {
        a - b
    }
}

/// The unit step taken from `a` toward `b`; `-1` when the two are equal,
/// matching an integer error-accumulation walk that never moves on a zero
/// delta.
pub open spec fn step_sign(a: int, b: int) -> int {
    if a < b {
        1
    } else {
        -1
    }
}

/// A full-intensity black sample at `(x, y)`.
pub open spec fn black_at(x: int, y: int) -> Pixel {
    Pixel { pos: Point { x: x as i32, y: y as i32 }, red: 0, green: 0, blue: 0, intensity: 255 }
}

/// The Bresenham error term after `px` unit steps along x and `py` along y,
/// for a line of absolute deltas `dx`, `dy`.
pub open spec fn bres_err(dx: int, dy: int, px: int, py: int) -> int {
    dx - dy - dy * px + dx * py
}

/// The x progress after one more Bresenham step from `(px, py)`.
pub open spec fn bres_nx(dx: int, dy: int, px: int, py: int) -> int {
    if 2 * bres_err(dx, dy, px, py) > -dy {
        px + 1
    } else {
        px
    }
}

/// The y progress after one more Bresenham step from `(px, py)`.
pub open spec fn bres_ny(dx: int, dy: int, px: int, py: int) -> int {
    if 2 * bres_err(dx, dy, px, py) < dx {
        py + 1
    } else {
        py
    }
}

/// One Bresenham step never overshoots either delta and always advances.
pub proof fn lemma_bres_progress(dx: int, dy: int, px: int, py: int)
    ensures
        0 <= px <= dx && 0 <= py <= dy && !(px == dx && py == dy) ==> {
            &&& px <= bres_nx(dx, dy, px, py) <= dx
            &&& py <= bres_ny(dx, dy, px, py) <= dy
            &&& bres_nx(dx, dy, px, py) + bres_ny(dx, dy, px, py) > px + py
        },
{
    assert(0 <= px <= dx && 0 <= py <= dy && !(px == dx && py == dy) ==> {
        &&& px <= bres_nx(dx, dy, px, py) <= dx
        &&& py <= bres_ny(dx, dy, px, py) <= dy
        &&& bres_nx(dx, dy, px, py) + bres_ny(dx, dy, px, py) > px + py
    }) by (nonlinear_arith);
}

/// The error term stays small for bounded deltas.
pub proof fn lemma_bres_err_bound(dx: int, dy: int, px: int, py: int)
    requires
        0 <= px <= dx <= 2 * COORD_LIMIT,
        0 <= py <= dy <= 2 * COORD_LIMIT,
    ensures
        -0x100_0000_0000_0000 < bres_err(dx, dy, px, py) < 0x100_0000_0000_0000,
{
    assert(-0x100_0000_0000_0000 < dx - dy - dy * px + dx * py < 0x100_0000_0000_0000)
        by (nonlinear_arith)
        requires
            0 <= px <= dx <= 2 * COORD_LIMIT,
            0 <= py <= dy <= 2 * COORD_LIMIT,
    ;
}

/// The sequence of `(px, py)` progress pairs a Bresenham walk visits after
/// state `(px, py)`, ending at `(dx, dy)`.
pub open spec fn bres_walk(dx: int, dy: int, px: int, py: int) -> Seq<(int, int)>
    decreases dx + dy - px - py,
    when 0 <= px <= dx && 0 <= py <= dy
    via bres_walk_dec
{
    if px == dx && py == dy {
        Seq::empty()
    } else {
        seq![(bres_nx(dx, dy, px, py), bres_ny(dx, dy, px, py))] + bres_walk(
            dx,
            dy,
            bres_nx(dx, dy, px, py),
            bres_ny(dx, dy, px, py),
        )
    }
}

#[via_fn]
proof fn bres_walk_dec(dx: int, dy: int, px: int, py: int) {
    lemma_bres_progress(dx, dy, px, py);
}

/// The singleton batch emitted at progress `pq` of a Bresenham walk that
/// started at `(x0, y0)` with unit steps `sx`, `sy`.
pub open spec fn bres_batch_at(x0: int, y0: int, sx: int, sy: int, pq: (int, int)) -> Seq<Pixel> {
    seq![black_at(x0 + sx * pq.0, y0 + sy * pq.1)]
}

/// The complete batch sequence of the Bresenham rasterizer for the segment
/// from `p0` to `p1`: the start pixel, then one pixel per error-accumulation
/// step until the end pixel is reached.
pub open spec fn bresenham_batches(p0: Point, p1: Point) -> Seq<Seq<Pixel>> {
    seq![seq![black_at(p0.x as int, p0.y as int)]] + bres_walk(
        abs_delta(p0.x as int, p1.x as int),
        abs_delta(p0.y as int, p1.y as int),
        0,
        0,
    ).map_values(
        |pq: (int, int)|
            bres_batch_at(
                p0.x as int,
                p0.y as int,
                step_sign(p0.x as int, p1.x as int),
                step_sign(p0.y as int, p1.y as int),
                pq,
            ),
    )
}

/// The in-flight state of the Bresenham rasterizer.
pub struct BresenhamLine {
    x0: i32,
    y0: i32,
    x1: i32,
    y1: i32,
    x: i32,
    y: i32,
    sx: i32,
    sy: i32,
    dx: i64,
    dy: i64,
    err: i64,
    started: bool,
}

impl BresenhamLine {
    /// x progress so far, measured along the step direction.
    pub closed spec fn px(self) -> int {
        if self.sx == 1 {
            self.x - self.x0
        } else {
            self.x0 - self.x
        }
    }

    /// y progress so far, measured along the step direction.
    pub closed spec fn py(self) -> int {
        if self.sy == 1 {
            self.y - self.y0
        } else {
            self.y0 - self.y
        }
    }
}

impl PixelSource for BresenhamLine {
    closed spec fn wf(&self) -> bool {
        &&& (Point { x: self.x0, y: self.y0 }).spec_in_bounds()
        &&& (Point { x: self.x1, y: self.y1 }).spec_in_bounds()
        &&& self.dx == abs_delta(self.x0 as int, self.x1 as int)
        &&& self.dy == abs_delta(self.y0 as int, self.y1 as int)
        &&& self.sx == step_sign(self.x0 as int, self.x1 as int)
        &&& self.sy == step_sign(self.y0 as int, self.y1 as int)
        &&& 0 <= self.px() <= self.dx
        &&& 0 <= self.py() <= self.dy
        &&& self.err == bres_err(self.dx as int, self.dy as int, self.px(), self.py())
        &&& !self.started ==> self.px() == 0 && self.py() == 0
    }

    closed spec fn remaining(&self) -> Seq<Seq<Pixel>> {
        if !self.started {
            bresenham_batches(Point { x: self.x0, y: self.y0 }, Point { x: self.x1, y: self.y1 })
        } else {
            bres_walk(self.dx as int, self.dy as int, self.px(), self.py()).map_values(
                |pq: (int, int)|
                    bres_batch_at(
                        self.x0 as int,
                        self.y0 as int,
                        self.sx as int,
                        self.sy as int,
                        pq,
                    ),
            )
        }
    }

    fn step(&mut self) -> (r: Option<Vec<Pixel>>) {
        if !self.started {
            self.started = true;
            let mut v: Vec<Pixel> = Vec::new();
            v.push(Pixel::new_black(self.x0, self.y0, 255));
            proof {
                let full = old(self).remaining();
                assert(full[0] =~= v@);
                assert(full.skip(1) =~= self.remaining());
            }
            return Some(v);
        }
        let ghost dxi = self.dx as int;
        let ghost dyi = self.dy as int;
        let ghost px0 = self.px();
        let ghost py0 = self.py();
        if self.x == self.x1 && self.y == self.y1 {
            proof {
                assert(px0 == dxi && py0 == dyi);
            }
            return None;
        }
        proof {
            assert(!(px0 == dxi && py0 == dyi));
            lemma_bres_progress(dxi, dyi, px0, py0);
            lemma_bres_err_bound(dxi, dyi, px0, py0);
        }
        let e2 = 2 * self.err;
        if e2 > -self.dy {
            self.err = self.err - self.dy;
            self.x = self.x + self.sx;
        }
        if e2 < self.dx {
            self.err = self.err + self.dx;
            self.y = self.y + self.sy;
        }
        let ghost npx = bres_nx(dxi, dyi, px0, py0);
        let ghost npy = bres_ny(dxi, dyi, px0, py0);
        proof {
            assert(self.px() == npx && self.py() == npy);
            assert(self.err == bres_err(dxi, dyi, npx, npy)) by (nonlinear_arith)
                requires
                    self.err == if 2 * bres_err(dxi, dyi, px0, py0) > -dyi {
                        if 2 * bres_err(dxi, dyi, px0, py0) < dxi {
                            bres_err(dxi, dyi, px0, py0) - dyi + dxi
                        } else {
                            bres_err(dxi, dyi, px0, py0) - dyi
                        }
                    } else {
                        if 2 * bres_err(dxi, dyi, px0, py0) < dxi {
                            bres_err(dxi, dyi, px0, py0) + dxi
                        } else {
                            bres_err(dxi, dyi, px0, py0)
                        }
                    },
                    npx == bres_nx(dxi, dyi, px0, py0),
                    npy == bres_ny(dxi, dyi, px0, py0),
            ;
        }
        let mut v: Vec<Pixel> = Vec::new();
        v.push(Pixel::new_black(self.x, self.y, 255));
        proof {
            let rem0 = old(self).remaining();
            assert(bres_walk(dxi, dyi, px0, py0) == seq![(npx, npy)] + bres_walk(
                dxi,
                dyi,
                npx,
                npy,
            ));
            assert(rem0[0] =~= v@);
            assert(rem0.skip(1) =~= self.remaining());
        }
        Some(v)
    }
}

/// Build the Bresenham rasterizer for the segment from `start` to `end`.
pub fn bresenham_line(start: Point, end: Point) -> (g: BresenhamLine)
    requires
        start.spec_in_bounds(),
        end.spec_in_bounds(),
    ensures
        g.wf(),
        g.remaining() == bresenham_batches(start, end),
{
    let dx: i64 = if end.x >= start.x {
        end.x as i64 - start.x as i64
    } else {
        start.x as i64 - end.x as i64
    };
    let dy: i64 = if end.y >= start.y {
        end.y as i64 - start.y as i64
    } else {
        start.y as i64 - end.y as i64
    };
    let sx: i32 = if start.x < end.x {
        1
    } else {
        -1
    };
    let sy: i32 = if start.y < end.y {
        1
    } else {
        -1
    };
    let g = BresenhamLine {
        x0: start.x,
        y0: start.y,
        x1: end.x,
        y1: end.y,
        x: start.x,
        y: start.y,
        sx,
        sy,
        dx,
        dy,
        err: dx - dy,
        started: false,
    };
    proof {
        assert(g.px() == 0);
        assert(g.py() == 0);
        assert(bres_err(dx as int, dy as int, 0, 0) == dx - dy) by (nonlinear_arith);
    }
    g
}

/// The sign of a delta: the direction of the half-pixel offset the DDA walk
/// starts from.
pub open spec fn sign_of(d: int) -> int {
    if d > 0 {
        1
    } else if d < 0 {
        -1
    } else {
        0
    }
}

/// The i-th DDA coordinate along one axis: the floor of
/// `c0 + sign(d)/2 + i*d/l`, computed exactly over a common denominator of
/// `2*l`.
pub open spec fn dda_coord(c0: int, d: int, l: int, i: int) -> int {
    (2 * l * c0 + sign_of(d) * l + 2 * i * d) / (2 * l)
}

/// The i-th quantized DDA sample batch.
pub open spec fn dda_sample(p0: Point, p1: Point, l: int, i: int) -> Seq<Pixel> {
    seq![
        black_at(
            dda_coord(p0.x as int, p1.x - p0.x, l, i),
            dda_coord(p0.y as int, p1.y - p0.y, l, i),
        ),
    ]
}

/// The complete batch sequence of the DDA rasterizer: the start point, then
/// `l + 1` floor-quantized samples, where `l = max(|dx|, |dy|)`.  A
/// zero-length line yields the start point alone.
pub open spec fn dda_batches(p0: Point, p1: Point) -> Seq<Seq<Pixel>> {
    let l = if abs_delta(p0.x as int, p1.x as int) >= abs_delta(p0.y as int, p1.y as int) {
        abs_delta(p0.x as int, p1.x as int)
    } else {
        abs_delta(p0.y as int, p1.y as int)
    };
    if l == 0 {
        seq![seq![black_at(p0.x as int, p0.y as int)]]
    } else {
        seq![seq![black_at(p0.x as int, p0.y as int)]] + Seq::new(
            (l + 1) as nat,
            |i: int| dda_sample(p0, p1, l, i),
        )
    }
}

/// The in-flight state of the DDA rasterizer: the endpoints, the step count,
/// and the index of the next batch.
pub struct DdaLine {
    x0: i32,
    y0: i32,
    x1: i32,
    y1: i32,
    l: i64,
    next: i64,
}

impl DdaLine {
    pub closed spec fn start(self) -> Point {
        Point { x: self.x0, y: self.y0 }
    }

    pub closed spec fn end(self) -> Point {
        Point { x: self.x1, y: self.y1 }
    }
}

impl PixelSource for DdaLine {
    closed spec fn wf(&self) -> bool {
        &&& self.start().spec_in_bounds()
        &&& self.end().spec_in_bounds()
        &&& self.l == if abs_delta(self.x0 as int, self.x1 as int) >= abs_delta(
            self.y0 as int,
            self.y1 as int,
        ) {
            abs_delta(self.x0 as int, self.x1 as int)
        } else {
            abs_delta(self.y0 as int, self.y1 as int)
        }
        &&& 0 <= self.next <= dda_batches(self.start(), self.end()).len()
    }

    closed spec fn remaining(&self) -> Seq<Seq<Pixel>> {
        dda_batches(self.start(), self.end()).skip(self.next as int)
    }

    fn step(&mut self) -> (r: Option<Vec<Pixel>>) {
        let ghost batches = dda_batches(self.start(), self.end());
        if self.next == 0 {
            self.next = 1;
            let mut v: Vec<Pixel> = Vec::new();
            v.push(Pixel::new_black(self.x0, self.y0, 255));
            proof {
                assert(batches.skip(0) =~= batches);
                assert(batches.skip(0).skip(1) =~= batches.skip(1));
            }
            return Some(v);
        }
        if self.l == 0 || self.next > self.l + 1 {
            proof {
                assert(self.remaining().len() == 0);
            }
            return None;
        }
        let i = self.next - 1;
        let x = dda_axis(self.x0, self.x1, self.l, i);
        let y = dda_axis(self.y0, self.y1, self.l, i);
        self.next = self.next + 1;
        let mut v: Vec<Pixel> = Vec::new();
        v.push(Pixel::new_black(x, y, 255));
        proof {
            let n0 = self.next - 1;
            assert(batches.skip(n0)[0] == batches[n0]);
            assert(batches[n0] == dda_sample(self.start(), self.end(), self.l as int, i as int));
            assert(batches.skip(n0)[0] =~= v@);
            assert(batches.skip(n0).skip(1) =~= batches.skip(n0 + 1));
        }
        Some(v)
    }
}

/// The i-th DDA coordinate along one axis, computed exactly.
fn dda_axis(c0: i32, c1: i32, l: i64, i: i64) -> (r: i32)
    requires
        -COORD_LIMIT <= c0 <= COORD_LIMIT,
        -COORD_LIMIT <= c1 <= COORD_LIMIT,
        0 < l <= 2 * COORD_LIMIT,
        abs_delta(c0 as int, c1 as int) <= l,
        0 <= i <= l + 1,
    ensures
        r == dda_coord(c0 as int, (c1 - c0) as int, l as int, i as int),
{
    let d: i64 = c1 as i64 - c0 as i64;
    let s: i64 = if d > 0 {
        1
    } else if d < 0 {
        -1
    } else {
        0
    };
    proof {
        crate::geometry::lemma_product_bound(2 * l as int, c0 as int, 4 * COORD_LIMIT as int);
        crate::geometry::lemma_product_bound(s as int, l as int, 2 * COORD_LIMIT as int);
        crate::geometry::lemma_product_bound(2 * i as int, d as int, 5 * COORD_LIMIT as int);
    }
    let num: i64 = 2 * l * c0 as i64 + s * l + 2 * i * d;
    let q = crate::geometry::div_floor(num, 2 * l);
    proof {
        lemma_dda_coord_bound(c0 as int, d as int, l as int, i as int);
    }
    q as i32
}

/// Each DDA coordinate stays within one delta of the start coordinate.
proof fn lemma_dda_coord_bound(c0: int, d: int, l: int, i: int)
    requires
        -COORD_LIMIT <= c0 <= COORD_LIMIT,
        -2 * COORD_LIMIT <= d <= 2 * COORD_LIMIT,
        0 < l,
        abs_delta(0, d) <= l,
        0 <= i <= l + 1,
    ensures
        c0 - 2 * COORD_LIMIT - 2 <= dda_coord(c0, d, l, i) <= c0 + 2 * COORD_LIMIT + 2,
{
    let lo = c0 - 2 * COORD_LIMIT - 2;
    let hi = c0 + 2 * COORD_LIMIT + 2;
    let num = 2 * l * c0 + sign_of(d) * l + 2 * i * d;
    assert(2 * l * lo <= num <= 2 * l * hi) by (nonlinear_arith)
        requires
            -COORD_LIMIT <= c0 <= COORD_LIMIT,
            -2 * COORD_LIMIT <= d <= 2 * COORD_LIMIT,
            0 < l,
            abs_delta(0, d) <= l,
            0 <= i <= l + 1,
            num == 2 * l * c0 + sign_of(d) * l + 2 * i * d,
            lo == c0 - 2 * COORD_LIMIT - 2,
            hi == c0 + 2 * COORD_LIMIT + 2,
    ;
    assert((2 * l * lo) / (2 * l) == lo && (2 * l * hi) / (2 * l) == hi) by {
        crate::geometry::lemma_div_shift(0, lo, 2 * l);
        crate::geometry::lemma_div_shift(0, hi, 2 * l);
        vstd::arithmetic::div_mod::lemma_div_of0(2 * l);
        assert(lo * (2 * l) == 2 * l * lo) by (nonlinear_arith);
        assert(hi * (2 * l) == 2 * l * hi) by (nonlinear_arith);
    }
    vstd::arithmetic::div_mod::lemma_div_is_ordered(2 * l * lo, num, 2 * l);
    vstd::arithmetic::div_mod::lemma_div_is_ordered(num, 2 * l * hi, 2 * l);
}

/// Build the DDA rasterizer for the segment from `start` to `end`.
pub fn dda_line(start: Point, end: Point) -> (g: DdaLine)
    requires
        start.spec_in_bounds(),
        end.spec_in_bounds(),
    ensures
        g.wf(),
        g.remaining() == dda_batches(start, end),
{
    let adx: i64 = if end.x >= start.x {
        end.x as i64 - start.x as i64
    } else {
        start.x as i64 - end.x as i64
    };
    let ady: i64 = if end.y >= start.y {
        end.y as i64 - start.y as i64
    } else {
        start.y as i64 - end.y as i64
    };
    let l = if adx >= ady {
        adx
    } else {
        ady
    };
    let g = DdaLine { x0: start.x, y0: start.y, x1: end.x, y1: end.y, l, next: 0 };
    proof {
        assert(g.remaining() =~= dda_batches(start, end));
    }
    g
}

/// A Bresenham walk always ends exactly at `(dx, dy)`, and is finished if
/// and only if it stands there already.
pub proof fn lemma_bres_walk_ends(dx: int, dy: int, px: int, py: int)
    requires
        0 <= px <= dx,
        0 <= py <= dy,
    ensures
        bres_walk(dx, dy, px, py).len() == 0 <==> (px == dx && py == dy),
        bres_walk(dx, dy, px, py).len() > 0 ==> bres_walk(dx, dy, px, py).last() == (dx, dy),
    decreases dx + dy - px - py,
{
    if px == dx && py == dy {
    } else {
        lemma_bres_progress(dx, dy, px, py);
        let npx = bres_nx(dx, dy, px, py);
        let npy = bres_ny(dx, dy, px, py);
        lemma_bres_walk_ends(dx, dy, npx, npy);
        let rest = bres_walk(dx, dy, npx, npy);
        if rest.len() == 0 {
            assert(bres_walk(dx, dy, px, py).last() == (npx, npy));
        } else {
            assert(bres_walk(dx, dy, px, py).last() == rest.last());
        }
    }
}

/// The quantized DDA coordinate at the final step lands exactly on the end
/// coordinate when the delta is nonnegative.
proof fn lemma_dda_endpoint(c0: int, d: int, l: int)
    requires
        0 < l,
        0 <= d <= l,
    ensures
        dda_coord(c0, d, l, l) == c0 + d,
{
    let s = sign_of(d);
    if d > 0 {
        assert(s == 1);
        assert(2 * l * c0 + s * l + 2 * l * d == l + (c0 + d) * (2 * l)) by (nonlinear_arith)
            requires
                s == 1,
        ;
        crate::geometry::lemma_div_shift(l, c0 + d, 2 * l);
        vstd::arithmetic::div_mod::lemma_basic_div(l, 2 * l);
    } else {
        assert(s == 0 && d == 0);
        assert(2 * l * c0 + s * l + 2 * l * d == 0 + c0 * (2 * l)) by (nonlinear_arith)
            requires
                s == 0 && d == 0,
        ;
        crate::geometry::lemma_div_shift(0, c0, 2 * l);
        vstd::arithmetic::div_mod::lemma_div_of0(2 * l);
    }
}

/// Line endpoint agreement: for a segment whose deltas are nonnegative, the
/// DDA, Bresenham, and Wu rasterizers each emit the start pixel as their
/// first sample batch and the end pixel as their last.
pub proof fn lemma_line_endpoints(p0: Point, p1: Point)
    requires
        p0.spec_in_bounds(),
        p1.spec_in_bounds(),
        p0.x <= p1.x,
        p0.y <= p1.y,
    ensures
        bresenham_batches(p0, p1).len() > 0,
        bresenham_batches(p0, p1).first() == seq![black_at(p0.x as int, p0.y as int)],
        bresenham_batches(p0, p1).last() == seq![black_at(p1.x as int, p1.y as int)],
        dda_batches(p0, p1).len() > 0,
        dda_batches(p0, p1).first() == seq![black_at(p0.x as int, p0.y as int)],
        dda_batches(p0, p1).last() == seq![black_at(p1.x as int, p1.y as int)],
        wu_batches(p0, p1).len() > 0,
        wu_batches(p0, p1).first() == seq![black_at(p0.x as int, p0.y as int)],
        wu_batches(p0, p1).last() == seq![black_at(p1.x as int, p1.y as int)],
{
    let dx = abs_delta(p0.x as int, p1.x as int);
    let dy = abs_delta(p0.y as int, p1.y as int);
    // Bresenham: the walk ends at (dx, dy), which maps back to the end pixel.
    lemma_bres_walk_ends(dx, dy, 0, 0);
    let walk = bres_walk(dx, dy, 0, 0);
    let sx = step_sign(p0.x as int, p1.x as int);
    let sy = step_sign(p0.y as int, p1.y as int);
    if walk.len() == 0 {
        assert(p0 == p1);
    } else {
        let mapped = walk.map_values(
            |pq: (int, int)| bres_batch_at(p0.x as int, p0.y as int, sx, sy, pq),
        );
        assert(mapped.last() == bres_batch_at(p0.x as int, p0.y as int, sx, sy, walk.last()));
        assert(p0.x as int + sx * dx == p1.x as int);
        assert(p0.y as int + sy * dy == p1.y as int);
        assert(bresenham_batches(p0, p1).last() == mapped.last());
    }
    // DDA: the final quantized sample is the end pixel.
    let l = if dx >= dy {
        dx
    } else {
        dy
    };
    if l == 0 {
        assert(p0 == p1);
    } else {
        lemma_dda_endpoint(p0.x as int, p1.x - p0.x, l);
        lemma_dda_endpoint(p0.y as int, p1.y - p0.y, l);
        assert(dda_batches(p0, p1).last() == dda_sample(p0, p1, l, l));
    }
    // Wu: the first and last batches are the canonical endpoints, which for
    // nonnegative deltas are the start and end pixels in order.
    let c = wu_canon(p0, p1);
    let steep = wu_steep(p0, p1);
    let cdx = c.2 - c.0;
    if cdx == 0 {
        assert(p0 == p1);
        assert(wu_batches(p0, p1).last() == seq![wu_pixel(steep, c.0, c.1, 255)]);
    } else {
        assert(wu_batches(p0, p1).len() == cdx + 1);
        assert(wu_batches(p0, p1).first() == seq![wu_pixel(steep, c.0, c.1, 255)]);
        assert(wu_batches(p0, p1).last() == seq![wu_pixel(steep, c.2, c.3, 255)]);
    }
}

/// Wu intensity conservation: at every interior step the two emitted
/// samples' intensities sum to 255, up to a truncation loss of at most one.
pub proof fn lemma_wu_intensity_conservation(p0: Point, p1: Point, k: int)
    requires
        p0.spec_in_bounds(),
        p1.spec_in_bounds(),
        1 <= k < wu_batches(p0, p1).len() - 1,
    ensures
        wu_batches(p0, p1)[k].len() == 2,
        254 <= wu_batches(p0, p1)[k][0].intensity + wu_batches(p0, p1)[k][1].intensity <= 255,
{
    let c = wu_canon(p0, p1);
    let steep = wu_steep(p0, p1);
    let cdx = c.2 - c.0;
    let cdy = c.3 - c.1;
    assert(cdx > 0);
    assert(wu_batches(p0, p1)[k] == wu_pair(steep, c.0, c.1, cdx, cdy, k));
    let fr = (k * cdy) % cdx;
    vstd::arithmetic::div_mod::lemma_mod_bound(k * cdy, cdx);
    lemma_wu_intensity_range(fr, cdx);
    let qa = 255 * (cdx - fr) / cdx;
    let qb = 255 * fr / cdx;
    vstd::arithmetic::div_mod::lemma_fundamental_div_mod(255 * (cdx - fr), cdx);
    vstd::arithmetic::div_mod::lemma_fundamental_div_mod(255 * fr, cdx);
    vstd::arithmetic::div_mod::lemma_mod_bound(255 * (cdx - fr), cdx);
    vstd::arithmetic::div_mod::lemma_mod_bound(255 * fr, cdx);
    assert(254 <= qa + qb <= 255) by (nonlinear_arith)
        requires
            cdx > 0,
            0 <= fr < cdx,
            255 * (cdx - fr) == cdx * qa + (255 * (cdx - fr)) % cdx,
            255 * fr == cdx * qb + (255 * fr) % cdx,
            0 <= (255 * (cdx - fr)) % cdx < cdx,
            0 <= (255 * fr) % cdx < cdx,
    ;
    assert(wu_batches(p0, p1)[k][0].intensity == qa);
    assert(wu_batches(p0, p1)[k][1].intensity == qb);
}

/// A black sample at `(x, y)` with the given intensity.
pub open spec fn shade_at(x: int, y: int, inten: int) -> Pixel {
    Pixel {
        pos: Point { x: x as i32, y: y as i32 },
        red: 0,
        green: 0,
        blue: 0,
        intensity: inten as u8,
    }
}

/// A sample emitted by the Wu rasterizer: coordinates are swapped back when
/// the line was classified as steep.
pub open spec fn wu_pixel(steep: bool, x: int, y: int, inten: int) -> Pixel {
    if steep {
        shade_at(y, x, inten)
    } else {
        shade_at(x, y, inten)
    }
}

/// Whether the Wu rasterizer treats the segment as steep: more vertical than
/// horizontal.
pub open spec fn wu_steep(p0: Point, p1: Point) -> bool {
    abs_delta(p0.y as int, p1.y as int) > abs_delta(p0.x as int, p1.x as int)
}

/// The canonical endpoints of the Wu walk `(cx0, cy0, cx1, cy1)`: coordinates
/// swapped for a steep line, then the endpoints ordered so x increases.
pub open spec fn wu_canon(p0: Point, p1: Point) -> (int, int, int, int) {
    let (a0, b0, a1, b1) = if wu_steep(p0, p1) {
        (p0.y as int, p0.x as int, p1.y as int, p1.x as int)
    } else {
        (p0.x as int, p0.y as int, p1.x as int, p1.y as int)
    };
    if a0 > a1 {
        (a1, b1, a0, b0)
    } else {
        (a0, b0, a1, b1)
    }
}

/// The two complementary samples the Wu walk emits at major-axis step `k`:
/// the pixel at the floor of the running intercept with intensity
/// `255*(1-frac)` and the pixel above it with intensity `255*frac`, the
/// fraction taken exactly over denominator `cdx`.
pub open spec fn wu_pair(steep: bool, cx0: int, cy0: int, cdx: int, cdy: int, k: int) -> Seq<
    Pixel,
> {
    let yk = cy0 + (k * cdy) / cdx;
    let fr = (k * cdy) % cdx;
    seq![
        wu_pixel(steep, cx0 + k, yk, 255 * (cdx - fr) / cdx),
        wu_pixel(steep, cx0 + k, yk + 1, 255 * fr / cdx),
    ]
}

/// The batch sequence of the Wu walk over canonical endpoints: the first and
/// last endpoints as full-intensity single samples, and a complementary
/// sample pair for every interior major-axis step.
pub open spec fn wu_canon_batches(
    steep: bool,
    cx0: int,
    cy0: int,
    cx1: int,
    cy1: int,
) -> Seq<Seq<Pixel>> {
    let cdx = cx1 - cx0;
    let cdy = cy1 - cy0;
    if cdx == 0 {
        seq![seq![wu_pixel(steep, cx0, cy0, 255)]]
    } else {
        seq![seq![wu_pixel(steep, cx0, cy0, 255)]] + Seq::new(
            (cdx - 1) as nat,
            |j: int| wu_pair(steep, cx0, cy0, cdx, cdy, j + 1),
        ) + seq![seq![wu_pixel(steep, cx1, cy1, 255)]]
    }
}

/// The complete batch sequence of the Wu anti-aliased rasterizer for the
/// segment from `p0` to `p1`.
pub open spec fn wu_batches(p0: Point, p1: Point) -> Seq<Seq<Pixel>> {
    let c = wu_canon(p0, p1);
    wu_canon_batches(wu_steep(p0, p1), c.0, c.1, c.2, c.3)
}

/// The in-flight state of the Wu rasterizer.
pub struct WuLine {
    steep: bool,
    cx0: i32,
    cy0: i32,
    cx1: i32,
    cy1: i32,
    cdx: i64,
    cdy: i64,
    next: i64,
}

impl PixelSource for WuLine {
    closed spec fn wf(&self) -> bool {
        &&& -COORD_LIMIT <= self.cx0 <= COORD_LIMIT
        &&& -COORD_LIMIT <= self.cy0 <= COORD_LIMIT
        &&& -COORD_LIMIT <= self.cx1 <= COORD_LIMIT
        &&& -COORD_LIMIT <= self.cy1 <= COORD_LIMIT
        &&& self.cx0 <= self.cx1
        &&& self.cdx == self.cx1 - self.cx0
        &&& self.cdy == self.cy1 - self.cy0
        &&& abs_delta(0, self.cdy as int) <= self.cdx
        &&& 0 <= self.next <= wu_canon_batches(
            self.steep,
            self.cx0 as int,
            self.cy0 as int,
            self.cx1 as int,
            self.cy1 as int,
        ).len()
    }

    closed spec fn remaining(&self) -> Seq<Seq<Pixel>> {
        wu_canon_batches(
            self.steep,
            self.cx0 as int,
            self.cy0 as int,
            self.cx1 as int,
            self.cy1 as int,
        ).skip(self.next as int)
    }

    fn step(&mut self) -> (r: Option<Vec<Pixel>>) {
        let ghost batches = wu_canon_batches(
            self.steep,
            self.cx0 as int,
            self.cy0 as int,
            self.cx1 as int,
            self.cy1 as int,
        );
        if self.next == 0 {
            self.next = 1;
            let mut v: Vec<Pixel> = Vec::new();
            if self.steep {
                v.push(Pixel::new_black(self.cy0, self.cx0, 255));
            } else {
                v.push(Pixel::new_black(self.cx0, self.cy0, 255));
            }
            proof {
                assert(batches.skip(0) =~= batches);
                assert(batches[0] =~= v@);
                assert(batches.skip(0).skip(1) =~= batches.skip(1));
            }
            return Some(v);
        }
        if self.next >= self.cdx + 1 || self.cdx == 0 {
            proof {
                assert(self.remaining().len() == 0);
            }
            return None;
        }
        if self.next == self.cdx {
            self.next = self.next + 1;
            let mut v: Vec<Pixel> = Vec::new();
            if self.steep {
                v.push(Pixel::new_black(self.cy1, self.cx1, 255));
            } else {
                v.push(Pixel::new_black(self.cx1, self.cy1, 255));
            }
            proof {
                let n0 = self.next - 1;
                assert(batches.skip(n0)[0] == batches[n0]);
                assert(batches[n0] =~= v@);
                assert(batches.skip(n0).skip(1) =~= batches.skip(n0 + 1));
            }
            return Some(v);
        }
        let k = self.next;
        let ghost cdxi = self.cdx as int;
        let ghost cdyi = self.cdy as int;
        proof {
            crate::geometry::lemma_product_bound(k as int, cdyi, 2 * COORD_LIMIT as int);
        }
        let q = crate::geometry::div_floor(k * self.cdy, self.cdx);
        proof {
            lemma_wu_quotient_bound(k as int, cdyi, cdxi);
            crate::geometry::lemma_product_bound(cdxi, q as int, 2 * COORD_LIMIT as int);
        }
        let fr = k * self.cdy - self.cdx * q;
        proof {
            vstd::arithmetic::div_mod::lemma_fundamental_div_mod(k as int * cdyi, cdxi);
            vstd::arithmetic::div_mod::lemma_mod_bound(k as int * cdyi, cdxi);
            assert(fr == (k as int * cdyi) % cdxi);
            crate::geometry::lemma_product_bound(255, fr as int, 2 * COORD_LIMIT as int);
            crate::geometry::lemma_product_bound(
                255,
                cdxi - fr as int,
                2 * COORD_LIMIT as int,
            );
        }
        let yk = self.cy0 as i64 + q;
        let inv = crate::geometry::div_floor(255 * (self.cdx - fr), self.cdx);
        let inten = crate::geometry::div_floor(255 * fr, self.cdx);
        proof {
            lemma_wu_intensity_range(fr as int, cdxi);
        }
        let x = self.cx0 as i64 + k;
        self.next = self.next + 1;
        let mut v: Vec<Pixel> = Vec::new();
        if self.steep {
            v.push(Pixel::new_black(yk as i32, x as i32, inv as u8));
            v.push(Pixel::new_black(yk as i32 + 1, x as i32, inten as u8));
        } else {
            v.push(Pixel::new_black(x as i32, yk as i32, inv as u8));
            v.push(Pixel::new_black(x as i32, yk as i32 + 1, inten as u8));
        }
        proof {
            let n0 = self.next - 1;
            assert(batches.skip(n0)[0] == batches[n0]);
            assert(batches[n0] == wu_pair(
                self.steep,
                self.cx0 as int,
                self.cy0 as int,
                cdxi,
                cdyi,
                n0,
            ));
            assert(batches[n0] =~= v@);
            assert(batches.skip(n0).skip(1) =~= batches.skip(n0 + 1));
        }
        Some(v)
    }
}

/// The running-intercept quotient never exceeds the minor delta in
/// magnitude.
proof fn lemma_wu_quotient_bound(k: int, cdy: int, cdx: int)
    requires
        0 < cdx,
        0 <= k <= cdx,
        abs_delta(0, cdy) <= cdx,
    ensures
        -abs_delta(0, cdy) <= (k * cdy) / cdx <= abs_delta(0, cdy),
{
    let a = abs_delta(0, cdy);
    assert(-(a * cdx) <= k * cdy <= a * cdx) by (nonlinear_arith)
        requires
            0 < cdx,
            0 <= k <= cdx,
            a == abs_delta(0, cdy),
    ;
    crate::geometry::lemma_div_shift(0, a, cdx);
    crate::geometry::lemma_div_shift(0, -a, cdx);
    vstd::arithmetic::div_mod::lemma_div_of0(cdx);
    assert(a * cdx == 0 + a * cdx && -(a * cdx) == 0 + (-a) * cdx) by (nonlinear_arith);
    vstd::arithmetic::div_mod::lemma_div_is_ordered(-(a * cdx), k * cdy, cdx);
    vstd::arithmetic::div_mod::lemma_div_is_ordered(k * cdy, a * cdx, cdx);
}

/// Both Wu intensities lie in `0 ..= 255`.
proof fn lemma_wu_intensity_range(fr: int, cdx: int)
    requires
        0 < cdx,
        0 <= fr < cdx,
    ensures
        0 <= 255 * fr / cdx <= 255,
        0 <= 255 * (cdx - fr) / cdx <= 255,
{
    crate::geometry::lemma_div_shift(0, 255, cdx);
    vstd::arithmetic::div_mod::lemma_div_of0(cdx);
    assert(255 * cdx == 0 + 255 * cdx) by (nonlinear_arith);
    assert(0 <= 255 * fr <= 255 * cdx && 0 <= 255 * (cdx - fr) <= 255 * cdx)
        by (nonlinear_arith)
        requires
            0 < cdx,
            0 <= fr < cdx,
    ;
    vstd::arithmetic::div_mod::lemma_div_is_ordered(0, 255 * fr, cdx);
    vstd::arithmetic::div_mod::lemma_div_is_ordered(255 * fr, 255 * cdx, cdx);
    vstd::arithmetic::div_mod::lemma_div_is_ordered(0, 255 * (cdx - fr), cdx);
    vstd::arithmetic::div_mod::lemma_div_is_ordered(255 * (cdx - fr), 255 * cdx, cdx);
}

/// Build the Wu anti-aliased rasterizer for the segment from `start` to
/// `end`.
pub fn wu_line(start: Point, end: Point) -> (g: WuLine)
    requires
        start.spec_in_bounds(),
        end.spec_in_bounds(),
    ensures
        g.wf(),
        g.remaining() == wu_batches(start, end),
{
    let adx: i64 = if end.x >= start.x {
        end.x as i64 - start.x as i64
    } else {
        start.x as i64 - end.x as i64
    };
    let ady: i64 = if end.y >= start.y {
        end.y as i64 - start.y as i64
    } else {
        start.y as i64 - end.y as i64
    };
    let steep = ady > adx;
    let (a0, b0, a1, b1) = if steep {
        (start.y, start.x, end.y, end.x)
    } else {
        (start.x, start.y, end.x, end.y)
    };
    let (cx0, cy0, cx1, cy1) = if a0 > a1 {
        (a1, b1, a0, b0)
    } else {
        (a0, b0, a1, b1)
    };
    let g = WuLine {
        steep,
        cx0,
        cy0,
        cx1,
        cy1,
        cdx: cx1 as i64 - cx0 as i64,
        cdy: cy1 as i64 - cy0 as i64,
        next: 0,
    };
    proof {
        assert(g.remaining() =~= wu_batches(start, end));
    }
    g
}

} // verus!
