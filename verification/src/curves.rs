//! Parametric curve sampling: Hermite, Bezier, and uniform B-spline
//! cubics, evaluated exactly over a common denominator and rounded to
//! pixels.  The step count adapts to the largest pairwise distance among
//! the control points so visual density stays roughly constant.

use vstd::prelude::*;

use crate::geometry::Point;
use crate::pixel::Pixel;
use crate::second_order_lines::spec_isqrt;

verus! {

/// The density factor: samples per unit of control-point spread, as a
/// ratio of nine to five.
pub const CURVE_SCALE_NUM: i64 = 9;

pub const CURVE_SCALE_DEN: i64 = 5;

/// The minimum number of steps any curve is sampled with.
pub const MIN_CURVE_STEPS: i64 = 20;

/// The cubic numerator `c3 i^3 + c2 i^2 n + c1 i n^2 + c0 n^3`: the value
/// of the cubic with the given coefficients at `t = i / n`, scaled by
/// `n^3`.
pub open spec fn cubic_num(c3: int, c2: int, c1: int, c0: int, i: int, n: int) -> int {
    c3 * i * i * i + c2 * i * i * n + c1 * i * n * n + c0 * n * n * n
}

/// The cubic at `t = i / n`, divided by `scale` and rounded to the nearest
/// integer.
pub open spec fn cubic_round(c3: int, c2: int, c1: int, c0: int, i: int, n: int, scale: int)
    -> int {
    crate::geometry::spec_div_round(cubic_num(c3, c2, c1, c0, i, n), scale * n * n * n)
}

/// Exact rounded evaluation of a cubic at `t = i / n`.
fn cubic_eval(c3: i64, c2: i64, c1: i64, c0: i64, i: i64, n: i64, scale: i64) -> (r: i64)
    requires
        1 <= n <= 6_000_000,
        0 <= i <= n,
        1 <= scale <= 6,
        -20_000_000 <= c3 <= 20_000_000,
        -20_000_000 <= c2 <= 20_000_000,
        -20_000_000 <= c1 <= 20_000_000,
        -20_000_000 <= c0 <= 20_000_000,
    ensures
        r == cubic_round(c3 as int, c2 as int, c1 as int, c0 as int, i as int, n as int, scale as int),
        -80_000_000 <= r <= 80_000_000,
{
    let ii = i as i128;
    let nn = n as i128;
    proof {
        crate::geometry::lemma_product_bound(i as int, i as int, 6_000_000);
        crate::geometry::lemma_product_bound(n as int, n as int, 6_000_000);
        crate::geometry::lemma_product_bound2(
            i as int * i as int,
            i as int,
            36_000_000_000_000,
            6_000_000,
        );
        crate::geometry::lemma_product_bound2(
            i as int * i as int,
            n as int,
            36_000_000_000_000,
            6_000_000,
        );
        crate::geometry::lemma_product_bound2(
            n as int * n as int,
            n as int,
            36_000_000_000_000,
            6_000_000,
        );
        crate::geometry::lemma_product_bound2(
            i as int,
            n as int * n as int,
            6_000_000,
            36_000_000_000_000,
        );
    }
    let i3 = ii * ii * ii;
    let i2n = ii * ii * nn;
    let in2 = ii * (nn * nn);
    let n3 = nn * nn * nn;
    proof {
        let m3 = 216_000_000_000_000_000_000int;
        crate::geometry::lemma_product_bound2(c3 as int, i3 as int, 20_000_000, m3);
        crate::geometry::lemma_product_bound2(c2 as int, i2n as int, 20_000_000, m3);
        crate::geometry::lemma_product_bound2(c1 as int, in2 as int, 20_000_000, m3);
        crate::geometry::lemma_product_bound2(c0 as int, n3 as int, 20_000_000, m3);
        crate::geometry::lemma_product_bound2(scale as int, n3 as int, 6, m3);
    }
    let num = c3 as i128 * i3 + c2 as i128 * i2n + c1 as i128 * in2 + c0 as i128 * n3;
    let den = scale as i128 * n3;
    proof {
        assert(num as int == cubic_num(c3 as int, c2 as int, c1 as int, c0 as int, i as int, n as int)
            && den as int == scale as int * (n as int) * (n as int) * (n as int) && den > 0)
            by (nonlinear_arith)
            requires
                i3 as int == (i as int * i as int) * i as int,
                i2n as int == (i as int * i as int) * n as int,
                in2 as int == i as int * (n as int * n as int),
                n3 as int == (n as int * n as int) * n as int,
                num as int == c3 as int * i3 as int + c2 as int * i2n as int + c1 as int
                    * in2 as int + c0 as int * n3 as int,
                den as int == scale as int * n3 as int,
                n >= 1,
                scale >= 1,
        ;
        lemma_cubic_bound(
            c3 as int,
            c2 as int,
            c1 as int,
            c0 as int,
            i as int,
            n as int,
            scale as int,
        );
    }
    let r = crate::polygon::div_round_i128(num, den);
    r as i64
}

/// The cubic numerator stays within the coefficient bound scaled by the
/// denominator, so the rounded value is small.
proof fn lemma_cubic_bound(c3: int, c2: int, c1: int, c0: int, i: int, n: int, scale: int)
    requires
        1 <= n <= 6_000_000,
        0 <= i <= n,
        1 <= scale <= 6,
        -20_000_000 <= c3 <= 20_000_000,
        -20_000_000 <= c2 <= 20_000_000,
        -20_000_000 <= c1 <= 20_000_000,
        -20_000_000 <= c0 <= 20_000_000,
    ensures
        -(scale * n * n * n) * 80_000_000 <= cubic_num(c3, c2, c1, c0, i, n) <= (scale * n * n
            * n) * 80_000_000,
        0 < scale * n * n * n <= 1_296_000_000_000_000_000_000,
        -80_000_000 <= cubic_round(c3, c2, c1, c0, i, n, scale) <= 80_000_000,
{
    assert(-(scale * n * n * n) * 80_000_000 <= cubic_num(c3, c2, c1, c0, i, n) <= (scale * n * n
        * n) * 80_000_000 && 0 < scale * n * n * n <= 1_296_000_000_000_000_000_000)
        by (nonlinear_arith)
        requires
            1 <= n <= 6_000_000,
            0 <= i <= n,
            1 <= scale <= 6,
            -20_000_000 <= c3 <= 20_000_000,
            -20_000_000 <= c2 <= 20_000_000,
            -20_000_000 <= c1 <= 20_000_000,
            -20_000_000 <= c0 <= 20_000_000,
    ;
    crate::polygon::lemma_round_small(
        cubic_num(c3, c2, c1, c0, i, n),
        scale * n * n * n,
        80_000_000,
    );
}

/// The floor of the distance between two points.
pub fn point_dist(a: Point, b: Point) -> (d: i64)
    requires
        a.spec_in_bounds(),
        b.spec_in_bounds(),
    ensures
        d == spec_isqrt(crate::geometry::spec_dist_sq(a, b)),
        0 <= d <= 3_000_000,
{
    proof {
        crate::geometry::lemma_product_bound(b.x - a.x, b.x - a.x, 2_000_000);
        crate::geometry::lemma_product_bound(b.y - a.y, b.y - a.y, 2_000_000);
        assert(0 <= (b.x - a.x) * (b.x - a.x) && 0 <= (b.y - a.y) * (b.y - a.y))
            by (nonlinear_arith);
    }
    let d2 = crate::geometry::dist_sq(a, b);
    let d = crate::second_order_lines::isqrt(d2);
    proof {
        assert(d <= 3_000_000) by (nonlinear_arith)
            requires
                d * d <= d2,
                d2 <= 8_000_000_000_000,
                0 <= d,
        ;
    }
    d
}

/// The adaptive step count for a control-point spread of `m`.
pub open spec fn steps_of(m: int) -> int {
    if (m * 9) / 5 > 20 {
        (m * 9) / 5
    } else {
        20
    }
}

/// The adaptive step count, exactly.
fn steps_for(m: i64) -> (n: i64)
    requires
        0 <= m <= 3_000_000,
    ensures
        n == steps_of(m as int),
        20 <= n <= 5_400_000,
{
    let s = crate::geometry::div_floor(m * CURVE_SCALE_NUM, CURVE_SCALE_DEN);
    proof {
        vstd::arithmetic::div_mod::lemma_div_is_ordered(0, m as int * 9, 5);
        vstd::arithmetic::div_mod::lemma_div_is_ordered(m as int * 9, 27_000_000, 5);
    }
    if s > MIN_CURVE_STEPS {
        s
    } else {
        MIN_CURVE_STEPS
    }
}

/// The largest pairwise floor-distance among four control points.
pub open spec fn spread4(p0: Point, p1: Point, p2: Point, p3: Point) -> int {
    let d01 = spec_isqrt(crate::geometry::spec_dist_sq(p0, p1));
    let d02 = spec_isqrt(crate::geometry::spec_dist_sq(p0, p2));
    let d03 = spec_isqrt(crate::geometry::spec_dist_sq(p0, p3));
    let d12 = spec_isqrt(crate::geometry::spec_dist_sq(p1, p2));
    let d13 = spec_isqrt(crate::geometry::spec_dist_sq(p1, p3));
    let d23 = spec_isqrt(crate::geometry::spec_dist_sq(p2, p3));
    max2(max2(max2(d01, d02), max2(d03, d12)), max2(d13, d23))
}

pub open spec fn max2(a: int, b: int) -> int {
    if a >= b {
        a
    } else {
        b
    }
}

/// The largest pairwise floor-distance among four points, exactly.
fn spread4_exec(p0: Point, p1: Point, p2: Point, p3: Point) -> (m: i64)
    requires
        p0.spec_in_bounds(),
        p1.spec_in_bounds(),
        p2.spec_in_bounds(),
        p3.spec_in_bounds(),
    ensures
        m == spread4(p0, p1, p2, p3),
        0 <= m <= 3_000_000,
{
    let d01 = point_dist(p0, p1);
    let d02 = point_dist(p0, p2);
    let d03 = point_dist(p0, p3);
    let d12 = point_dist(p1, p2);
    let d13 = point_dist(p1, p3);
    let d23 = point_dist(p2, p3);
    let mut m = d01;
    if d02 > m {
        m = d02;
    }
    if d03 > m {
        m = d03;
    }
    if d12 > m {
        m = d12;
    }
    if d13 > m {
        m = d13;
    }
    if d23 > m {
        m = d23;
    }
    m
}

/// One sample of a coordinate-wise cubic with shared step count and
/// denominator scale.
pub open spec fn cubic_sample(
    cx: (int, int, int, int),
    cy: (int, int, int, int),
    i: int,
    n: int,
    scale: int,
) -> Pixel {
    crate::lines::black_at(
        cubic_round(cx.0, cx.1, cx.2, cx.3, i, n, scale),
        cubic_round(cy.0, cy.1, cy.2, cy.3, i, n, scale),
    )
}

/// The full sample sequence of a cubic: `n + 1` points at `t = 0 ..= 1`.
pub open spec fn cubic_samples(
    cx: (int, int, int, int),
    cy: (int, int, int, int),
    n: int,
    scale: int,
) -> Seq<Pixel> {
    Seq::new((n + 1) as nat, |i: int| cubic_sample(cx, cy, i, n, scale))
}

/// The Hermite x/y coefficient vectors: the curve runs from the first to
/// the third control point, with tangents three times the chords from the
/// first to the second and from the third to the fourth point.
pub open spec fn hermite_coeffs(a0: int, a2: int, t0: int, t1: int) -> (int, int, int, int) {
    (2 * a0 - 2 * a2 + t0 + t1, -3 * a0 + 3 * a2 - 2 * t0 - t1, t0, a0)
}

/// The Hermite sample sequence for four control points.
pub open spec fn hermite_samples(p0: Point, p1: Point, p2: Point, p3: Point) -> Seq<Pixel> {
    let n = steps_of(spread4(p0, p1, p2, p3));
    cubic_samples(
        hermite_coeffs(p0.x as int, p2.x as int, 3 * (p1.x - p0.x), 3 * (p3.x - p2.x)),
        hermite_coeffs(p0.y as int, p2.y as int, 3 * (p1.y - p0.y), 3 * (p3.y - p2.y)),
        n,
        1,
    )
}

/// Append the Hermite curve samples for the four control points.
pub fn generate_hermite_curve(p0: Point, p1: Point, p2: Point, p3: Point, pixels: &mut Vec<Pixel>)
    requires
        p0.spec_in_bounds(),
        p1.spec_in_bounds(),
        p2.spec_in_bounds(),
        p3.spec_in_bounds(),
    ensures
        final(pixels)@ == old(pixels)@ + hermite_samples(p0, p1, p2, p3),
{
    let m = spread4_exec(p0, p1, p2, p3);
    let n = steps_for(m);
    let x0 = p0.x as i64;
    let x1 = p1.x as i64;
    let x2 = p2.x as i64;
    let x3 = p3.x as i64;
    let y0 = p0.y as i64;
    let y1 = p1.y as i64;
    let y2 = p2.y as i64;
    let y3 = p3.y as i64;
    let t0x = 3 * (x1 - x0);
    let t1x = 3 * (x3 - x2);
    let t0y = 3 * (y1 - y0);
    let t1y = 3 * (y3 - y2);
    let cx = (2 * x0 - 2 * x2 + t0x + t1x, 3 * x2 - 3 * x0 - 2 * t0x - t1x, t0x, x0);
    let cy = (2 * y0 - 2 * y2 + t0y + t1y, 3 * y2 - 3 * y0 - 2 * t0y - t1y, t0y, y0);
    sample_cubic(cx, cy, n, 1, pixels);
    proof {
        assert(pixels@ =~= old(pixels)@ + hermite_samples(p0, p1, p2, p3));
    }
}

/// The Bezier x/y coefficient vectors from the standard cubic basis.
pub open spec fn bezier_coeffs(a0: int, a1: int, a2: int, a3: int) -> (int, int, int, int) {
    (-a0 + 3 * a1 - 3 * a2 + a3, 3 * a0 - 6 * a1 + 3 * a2, -3 * a0 + 3 * a1, a0)
}

/// The Bezier sample sequence for four control points.
pub open spec fn bezier_samples(p0: Point, p1: Point, p2: Point, p3: Point) -> Seq<Pixel> {
    let n = steps_of(spread4(p0, p1, p2, p3));
    cubic_samples(
        bezier_coeffs(p0.x as int, p1.x as int, p2.x as int, p3.x as int),
        bezier_coeffs(p0.y as int, p1.y as int, p2.y as int, p3.y as int),
        n,
        1,
    )
}

/// Append the Bezier curve samples for the four control points.
pub fn generate_bezier_curve(p0: Point, p1: Point, p2: Point, p3: Point, pixels: &mut Vec<Pixel>)
    requires
        p0.spec_in_bounds(),
        p1.spec_in_bounds(),
        p2.spec_in_bounds(),
        p3.spec_in_bounds(),
    ensures
        final(pixels)@ == old(pixels)@ + bezier_samples(p0, p1, p2, p3),
{
    let m = spread4_exec(p0, p1, p2, p3);
    let n = steps_for(m);
    let x0 = p0.x as i64;
    let x1 = p1.x as i64;
    let x2 = p2.x as i64;
    let x3 = p3.x as i64;
    let y0 = p0.y as i64;
    let y1 = p1.y as i64;
    let y2 = p2.y as i64;
    let y3 = p3.y as i64;
    let cx = (3 * x1 - x0 - 3 * x2 + x3, 3 * x0 - 6 * x1 + 3 * x2, 3 * x1 - 3 * x0, x0);
    let cy = (3 * y1 - y0 - 3 * y2 + y3, 3 * y0 - 6 * y1 + 3 * y2, 3 * y1 - 3 * y0, y0);
    sample_cubic(cx, cy, n, 1, pixels);
    proof {
        assert(pixels@ =~= old(pixels)@ + bezier_samples(p0, p1, p2, p3));
    }
}

/// Append all `n + 1` samples of one cubic to the buffer.
fn sample_cubic(
    cx: (i64, i64, i64, i64),
    cy: (i64, i64, i64, i64),
    n: i64,
    scale: i64,
    pixels: &mut Vec<Pixel>,
)
    requires
        1 <= n <= 6_000_000,
        1 <= scale <= 6,
        -20_000_000 <= cx.0 <= 20_000_000,
        -20_000_000 <= cx.1 <= 20_000_000,
        -20_000_000 <= cx.2 <= 20_000_000,
        -20_000_000 <= cx.3 <= 20_000_000,
        -20_000_000 <= cy.0 <= 20_000_000,
        -20_000_000 <= cy.1 <= 20_000_000,
        -20_000_000 <= cy.2 <= 20_000_000,
        -20_000_000 <= cy.3 <= 20_000_000,
    ensures
        final(pixels)@ == old(pixels)@ + cubic_samples(
            (cx.0 as int, cx.1 as int, cx.2 as int, cx.3 as int),
            (cy.0 as int, cy.1 as int, cy.2 as int, cy.3 as int),
            n as int,
            scale as int,
        ),
{
    let ghost cxs = (cx.0 as int, cx.1 as int, cx.2 as int, cx.3 as int);
    let ghost cys = (cy.0 as int, cy.1 as int, cy.2 as int, cy.3 as int);
    let ghost want = cubic_samples(cxs, cys, n as int, scale as int);
    let mut i: i64 = 0;
    while i <= n
        invariant
            1 <= n <= 6_000_000,
            1 <= scale <= 6,
            -20_000_000 <= cx.0 <= 20_000_000,
            -20_000_000 <= cx.1 <= 20_000_000,
            -20_000_000 <= cx.2 <= 20_000_000,
            -20_000_000 <= cx.3 <= 20_000_000,
            -20_000_000 <= cy.0 <= 20_000_000,
            -20_000_000 <= cy.1 <= 20_000_000,
            -20_000_000 <= cy.2 <= 20_000_000,
            -20_000_000 <= cy.3 <= 20_000_000,
            0 <= i <= n + 1,
            cxs == (cx.0 as int, cx.1 as int, cx.2 as int, cx.3 as int),
            cys == (cy.0 as int, cy.1 as int, cy.2 as int, cy.3 as int),
            want == cubic_samples(cxs, cys, n as int, scale as int),
            pixels@ == old(pixels)@ + want.take(i as int),
        decreases n + 1 - i,
    {
        let x = cubic_eval(cx.0, cx.1, cx.2, cx.3, i, n, scale);
        let y = cubic_eval(cy.0, cy.1, cy.2, cy.3, i, n, scale);
        pixels.push(Pixel::new_black(x as i32, y as i32, 255));
        proof {
            assert(want.take(i as int + 1) =~= want.take(i as int).push(want[i as int]));
            assert(pixels@ =~= old(pixels)@ + want.take(i as int + 1));
        }
        i = i + 1;
    }
    proof {
        assert(want.take(n as int + 1) =~= want);
    }
}

/// The control point at augmented index `j`: past the end, the list wraps
/// around to its first three points.
pub open spec fn aug_point(pts: Seq<Point>, j: int) -> Point {
    if j < pts.len() {
        pts[j]
    } else {
        pts[j - pts.len()]
    }
}

/// The largest pairwise floor-distance among the first `k` points of a
/// list, paired with every earlier point.
pub open spec fn row_spread(pts: Seq<Point>, j: int, i: int) -> int
    decreases i,
{
    if i <= 0 {
        0
    } else {
        max2(
            row_spread(pts, j, i - 1),
            spec_isqrt(crate::geometry::spec_dist_sq(pts[j], pts[i - 1])),
        )
    }
}

/// The largest pairwise floor-distance among the first `k` points.
pub open spec fn spread_upto(pts: Seq<Point>, k: int) -> int
    decreases k,
{
    if k <= 0 {
        0
    } else {
        max2(spread_upto(pts, k - 1), row_spread(pts, k - 1, k - 1))
    }
}

/// The uniform cubic B-spline coefficient vectors of one segment, scaled
/// by six.
pub open spec fn bspline_coeffs(a0: int, a1: int, a2: int, a3: int) -> (int, int, int, int) {
    (3 * a1 - a0 - 3 * a2 + a3, 3 * a0 - 6 * a1 + 3 * a2, 3 * a2 - 3 * a0, a0 + 4 * a1 + a2)
}

/// The samples of B-spline segment `i`.
pub open spec fn bspline_segment(pts: Seq<Point>, i: int, n: int) -> Seq<Pixel> {
    let q0 = aug_point(pts, i);
    let q1 = aug_point(pts, i + 1);
    let q2 = aug_point(pts, i + 2);
    let q3 = aug_point(pts, i + 3);
    cubic_samples(
        bspline_coeffs(q0.x as int, q1.x as int, q2.x as int, q3.x as int),
        bspline_coeffs(q0.y as int, q1.y as int, q2.y as int, q3.y as int),
        n,
        6,
    )
}

/// The samples of the first `k` B-spline segments.
pub open spec fn bspline_upto(pts: Seq<Point>, k: int, n: int) -> Seq<Pixel>
    decreases k,
{
    if k <= 0 {
        Seq::empty()
    } else {
        bspline_upto(pts, k - 1, n) + bspline_segment(pts, k - 1, n)
    }
}

/// The complete B-spline sample sequence: one wraparound-augmented segment
/// per control point, or nothing when fewer than four points are given.
pub open spec fn bspline_samples(pts: Seq<Point>) -> Seq<Pixel> {
    if pts.len() < 4 {
        Seq::empty()
    } else {
        bspline_upto(pts, pts.len() as int, steps_of(spread_upto(pts, pts.len() as int)))
    }
}

/// Append the uniform B-spline curve samples for the control points;
/// fewer than four points yield nothing.
#[verifier::rlimit(100)]
pub fn generate_bspline_curve(control_points: &Vec<Point>, pixels: &mut Vec<Pixel>)
    requires
        crate::polygon::poly_wf(control_points@),
    ensures
        final(pixels)@ == old(pixels)@ + bspline_samples(control_points@),
{
    let ghost pts = control_points@;
    let n = control_points.len();
    if n < 4 {
        proof {
            assert(pixels@ =~= old(pixels)@ + bspline_samples(pts));
        }
        return ;
    }
    // Largest pairwise spread.
    let mut m: i64 = 0;
    let mut k: usize = 0;
    while k < n
        invariant
            crate::polygon::poly_wf(pts),
            pts == control_points@,
            n == pts.len(),
            0 <= k <= n,
            m == spread_upto(pts, k as int),
            0 <= m <= 3_000_000,
        decreases n - k,
    {
        let mut j: usize = 0;
        let mut row: i64 = 0;
        while j < k
            invariant
                crate::polygon::poly_wf(pts),
                pts == control_points@,
                n == pts.len(),
                0 <= j <= k < n,
                row == row_spread(pts, k as int, j as int),
                0 <= row <= 3_000_000,
            decreases k - j,
        {
            let d = point_dist(control_points[k], control_points[j]);
            if d > row {
                row = d;
            }
            j = j + 1;
        }
        if row > m {
            m = row;
        }
        k = k + 1;
    }
    let steps = steps_for(m);
    // One segment per control point, wrapping around at the end.
    let ghost want = bspline_samples(pts);
    let mut seg: usize = 0;
    while seg < n
        invariant
            crate::polygon::poly_wf(pts),
            pts == control_points@,
            4 <= n == pts.len(),
            0 <= seg <= n,
            20 <= steps <= 5_400_000,
            steps == steps_of(spread_upto(pts, n as int)),
            want == bspline_samples(pts),
            pixels@ == old(pixels)@ + bspline_upto(pts, seg as int, steps as int),
        decreases n - seg,
    {
        let q0 = control_points[seg];
        let q1 = control_points[if seg + 1 < n {
            seg + 1
        } else {
            seg + 1 - n
        }];
        let q2 = control_points[if seg + 2 < n {
            seg + 2
        } else {
            seg + 2 - n
        }];
        let q3 = control_points[if seg + 3 < n {
            seg + 3
        } else {
            seg + 3 - n
        }];
        let x0 = q0.x as i64;
        let x1 = q1.x as i64;
        let x2 = q2.x as i64;
        let x3 = q3.x as i64;
        let y0 = q0.y as i64;
        let y1 = q1.y as i64;
        let y2 = q2.y as i64;
        let y3 = q3.y as i64;
        let cx = (3 * x1 - x0 - 3 * x2 + x3, 3 * x0 - 6 * x1 + 3 * x2, 3 * x2 - 3 * x0, x0 + 4
            * x1 + x2);
        let cy = (3 * y1 - y0 - 3 * y2 + y3, 3 * y0 - 6 * y1 + 3 * y2, 3 * y2 - 3 * y0, y0 + 4
            * y1 + y2);
        sample_cubic(cx, cy, steps, 6, pixels);
        proof {
            assert(q0 == aug_point(pts, seg as int));
            assert(q1 == aug_point(pts, seg as int + 1));
            assert(q2 == aug_point(pts, seg as int + 2));
            assert(q3 == aug_point(pts, seg as int + 3));
            assert(pixels@ =~= old(pixels)@ + bspline_upto(pts, seg as int + 1, steps as int));
        }
        seg = seg + 1;
    }
    proof {
        assert(pixels@ =~= old(pixels)@ + bspline_samples(pts));
    }
}

} // verus!
