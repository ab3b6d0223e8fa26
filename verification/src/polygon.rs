//! The polygon engine: convexity test, interior normals, convex hulls,
//! point containment, probe-segment intersection, and the fill algorithms'
//! shared geometry.  A polygon is an ordered vertex list with an implicit
//! closing edge from the last vertex to the first.

use vstd::prelude::*;

use crate::gen::PixelSource;
use crate::geometry::COORD_LIMIT;
use crate::geometry::Point;
use crate::geometry::spec_cross;
use crate::geometry::spec_on_segment;

verus! {

/// The most vertices a polygon may hold.
pub const VERTEX_LIMIT: usize = 1_000;

/// Every vertex within coordinate bounds, and not too many of them.
pub open spec fn poly_wf(pts: Seq<Point>) -> bool {
    &&& pts.len() <= VERTEX_LIMIT
    &&& forall|i: int| 0 <= i < pts.len() ==> (#[trigger] pts[i]).spec_in_bounds()
}

/// The second endpoint of edge `i`: the next vertex, wrapping around.
pub open spec fn next_vertex(pts: Seq<Point>, i: int) -> Point {
    pts[(i + 1) % (pts.len() as int)]
}

/// Whether the rightward horizontal ray from `p` crosses edge `(a, b)`,
/// by the even-odd rule: the edge spans `p`'s scanline half-open at the
/// bottom, and the crossing point lies strictly right of `p`.
pub open spec fn edge_crosses(p: Point, a: Point, b: Point) -> bool {
    &&& (if a.y <= b.y {
        p.y > a.y && p.y <= b.y
    } else {
        p.y > b.y && p.y <= a.y
    })
    &&& (if b.y > a.y {
        (p.x - a.x) * (b.y - a.y) < (p.y - a.y) * (b.x - a.x)
    } else {
        (p.x - a.x) * (b.y - a.y) > (p.y - a.y) * (b.x - a.x)
    })
}

/// The number of polygon edges among the first `k` that the leftward ray
/// from `p` crosses.
pub open spec fn crossings_upto(pts: Seq<Point>, p: Point, k: int) -> int
    decreases k,
{
    if k <= 0 {
        0
    } else {
        crossings_upto(pts, p, k - 1) + if edge_crosses(p, pts[k - 1], next_vertex(pts, k - 1)) {
            1int
        } else {
            0int
        }
    }
}

/// Point containment by the even-odd ray-crossing rule.
pub open spec fn spec_is_inside(pts: Seq<Point>, p: Point) -> bool {
    crossings_upto(pts, p, pts.len() as int) % 2 == 1
}

/// Whether `p` lies exactly on some edge of the polygon.
pub open spec fn spec_on_boundary(pts: Seq<Point>, p: Point) -> bool {
    exists|i: int|
        0 <= i < pts.len() && spec_on_segment(pts[i], next_vertex(pts, i), p)
}

/// The cross product of the vertex triple starting at `i`.
pub open spec fn cross_at(pts: Seq<Point>, i: int) -> int {
    let n = pts.len() as int;
    spec_cross(pts[i], pts[(i + 1) % n], pts[(i + 2) % n])
}

/// Convexity: at least three vertices, and no two vertex triples turn in
/// opposite directions (collinear triples are ignored).
pub open spec fn spec_is_convex(pts: Seq<Point>) -> bool {
    &&& pts.len() >= 3
    &&& !(exists|i: int, j: int|
        0 <= i < pts.len() && 0 <= j < pts.len() && #[trigger] cross_at(pts, i) > 0
            && #[trigger] cross_at(pts, j) < 0)
}

/// Truncating division: rounds toward zero, as a float-to-integer cast
/// does.
pub open spec fn spec_div_trunc(a: int, b: int) -> int {
    if a >= 0 {
        a / b
    } else {
        -((-a) / b)
    }
}

/// The centroid of a vertex list, truncated toward zero.
pub open spec fn spec_centroid(pts: Seq<Point>) -> Point {
    let n = pts.len() as int;
    Point {
        x: spec_div_trunc(sum_x(pts, n), n) as i32,
        y: spec_div_trunc(sum_y(pts, n), n) as i32,
    }
}

/// The sum of the first `k` x coordinates.
pub open spec fn sum_x(pts: Seq<Point>, k: int) -> int
    decreases k,
{
    if k <= 0 {
        0
    } else {
        sum_x(pts, k - 1) + pts[k - 1].x
    }
}

/// The sum of the first `k` y coordinates.
pub open spec fn sum_y(pts: Seq<Point>, k: int) -> int
    decreases k,
{
    if k <= 0 {
        0
    } else {
        sum_y(pts, k - 1) + pts[k - 1].y
    }
}

/// The inward normal of edge `i`: the edge's perpendicular, oriented so
/// that it points toward the centroid side of the edge.  The orientation
/// test compares against the centroid scaled by the vertex count, which
/// avoids any division.
pub open spec fn normal_at(pts: Seq<Point>, i: int) -> (int, int) {
    let n = pts.len() as int;
    let a = pts[i];
    let b = next_vertex(pts, i);
    let px = -((b.y - a.y) as int);
    let py = (b.x - a.x) as int;
    let tx = sum_x(pts, n) - n * a.x;
    let ty = sum_y(pts, n) - n * a.y;
    if px * tx + py * ty < 0 {
        (-px, -py)
    } else {
        (px, py)
    }
}

/// The exact intersection of probe segment `(s, e)` with edge `(a, b)`:
/// `None` when the segments are parallel (zero denominator) or when the
/// intersection parameters fall outside both segments; otherwise the
/// intersection point rounded to the nearest pixel.
pub open spec fn seg_intersection(s: Point, e: Point, a: Point, b: Point) -> Option<Point> {
    let den = (s.x - e.x) * (a.y - b.y) - (s.y - e.y) * (a.x - b.x);
    if den == 0 {
        Option::None
    } else {
        let tn = (s.x - a.x) * (a.y - b.y) - (s.y - a.y) * (a.x - b.x);
        let un = (s.x - a.x) * (s.y - e.y) - (s.y - a.y) * (s.x - e.x);
        let ok = if den > 0 {
            0 <= tn <= den && 0 <= un <= den
        } else {
            den <= tn <= 0 && den <= un <= 0
        };
        if ok {
            let xn = s.x * den + tn * (e.x - s.x);
            let yn = s.y * den + tn * (e.y - s.y);
            let (rxn, ryn, rden) = if den > 0 {
                (xn, yn, den)
            } else {
                (-xn, -yn, -den)
            };
            Option::Some(
                Point {
                    x: crate::geometry::spec_div_round(rxn, rden) as i32,
                    y: crate::geometry::spec_div_round(ryn, rden) as i32,
                },
            )
        } else {
            Option::None
        }
    }
}

/// The intersection points of the probe segment with the first `k` polygon
/// edges, in edge order.
pub open spec fn intersections_upto(pts: Seq<Point>, s: Point, e: Point, k: int) -> Seq<Point>
    decreases k,
{
    if k <= 0 {
        Seq::empty()
    } else {
        intersections_upto(pts, s, e, k - 1) + match seg_intersection(
            s,
            e,
            pts[k - 1],
            next_vertex(pts, k - 1),
        ) {
            Option::Some(p) => seq![p],
            Option::None => Seq::empty(),
        }
    }
}

/// Exact containment test for a point against a vertex list.
pub fn is_inside(pts: &Vec<Point>, p: Point) -> (r: bool)
    requires
        poly_wf(pts@),
        p.spec_in_bounds(),
    ensures
        r == spec_is_inside(pts@, p),
{
    let n = pts.len();
    let mut count: u64 = 0;
    let mut i: usize = 0;
    while i < n
        invariant
            poly_wf(pts@),
            p.spec_in_bounds(),
            n == pts@.len(),
            0 <= i <= n,
            count <= i,
            count == crossings_upto(pts@, p, i as int),
        decreases n - i,
    {
        let a = pts[i];
        let b = pts[if i + 1 == n {
            0
        } else {
            i + 1
        }];
        proof {
            if i + 1 == n {
                vstd::arithmetic::div_mod::lemma_mod_self_0(n as int);
            } else {
                vstd::arithmetic::div_mod::lemma_small_mod((i + 1) as nat, n as nat);
            }
            crate::geometry::lemma_product_bound(
                p.x as int - a.x as int,
                b.y as int - a.y as int,
                2 * COORD_LIMIT as int,
            );
            crate::geometry::lemma_product_bound(
                p.y as int - a.y as int,
                b.x as int - a.x as int,
                2 * COORD_LIMIT as int,
            );
        }
        let in_y_range = if a.y <= b.y {
            p.y > a.y && p.y <= b.y
        } else {
            p.y > b.y && p.y <= a.y
        };
        if in_y_range {
            let lhs = (p.x as i64 - a.x as i64) * (b.y as i64 - a.y as i64);
            let rhs = (p.y as i64 - a.y as i64) * (b.x as i64 - a.x as i64);
            let crossed = if b.y > a.y {
                lhs < rhs
            } else {
                lhs > rhs
            };
            if crossed {
                count = count + 1;
            }
        }
        i = i + 1;
    }
    count % 2 == 1
}

/// Exact boundary test for a point against a vertex list.
pub fn is_on_boundary(pts: &Vec<Point>, p: Point) -> (r: bool)
    requires
        poly_wf(pts@),
        p.spec_in_bounds(),
    ensures
        r == spec_on_boundary(pts@, p),
{
    let n = pts.len();
    let mut i: usize = 0;
    while i < n
        invariant
            poly_wf(pts@),
            p.spec_in_bounds(),
            n == pts@.len(),
            0 <= i <= n,
            forall|k: int|
                0 <= k < i ==> !spec_on_segment(pts@[k], next_vertex(pts@, k), p),
        decreases n - i,
    {
        let a = pts[i];
        let b = pts[if i + 1 == n {
            0
        } else {
            i + 1
        }];
        proof {
            if i + 1 == n {
                vstd::arithmetic::div_mod::lemma_mod_self_0(n as int);
            } else {
                vstd::arithmetic::div_mod::lemma_small_mod((i + 1) as nat, n as nat);
            }
        }
        if crate::geometry::on_segment(a, b, p) {
            return true;
        }
        i = i + 1;
    }
    false
}

/// A point strictly above, below, or right of every vertex cannot be
/// inside: the leftward ray from it crosses no edge.
pub proof fn lemma_outside_bounds_not_inside(pts: Seq<Point>, p: Point)
    requires
        (forall|i: int| 0 <= i < pts.len() ==> (#[trigger] pts[i]).x <= p.x) || (forall|i: int|
            0 <= i < pts.len() ==> (#[trigger] pts[i]).y < p.y) || (forall|i: int|
            0 <= i < pts.len() ==> (#[trigger] pts[i]).y >= p.y),
    ensures
        !spec_is_inside(pts, p),
{
    let n = pts.len() as int;
    lemma_no_crossings_upto(pts, p, n);
}

/// Helper induction for `lemma_outside_bounds_not_inside`.
proof fn lemma_no_crossings_upto(pts: Seq<Point>, p: Point, k: int)
    requires
        k <= pts.len(),
        (forall|i: int| 0 <= i < pts.len() ==> (#[trigger] pts[i]).x <= p.x) || (forall|i: int|
            0 <= i < pts.len() ==> (#[trigger] pts[i]).y < p.y) || (forall|i: int|
            0 <= i < pts.len() ==> (#[trigger] pts[i]).y >= p.y),
    ensures
        crossings_upto(pts, p, k) == 0,
    decreases k,
{
    if k > 0 {
        lemma_no_crossings_upto(pts, p, k - 1);
        let a = pts[k - 1];
        let b = next_vertex(pts, k - 1);
        if forall|i: int| 0 <= i < pts.len() ==> (#[trigger] pts[i]).x <= p.x {
            // Both endpoints are left of or at p, so the crossing point
            // cannot be strictly right of p.
            assert(a.x <= p.x && b.x <= p.x);
            if edge_crosses(p, a, b) {
                assert(false) by (nonlinear_arith)
                    requires
                        a.x <= p.x,
                        b.x <= p.x,
                        edge_crosses(p, a, b),
                ;
            }
        } else if forall|i: int| 0 <= i < pts.len() ==> (#[trigger] pts[i]).y < p.y {
            assert(a.y < p.y && b.y < p.y);
        } else {
            assert(a.y >= p.y && b.y >= p.y);
        }
    }
}

/// The hit-test distance threshold in pixels.
pub const THRESHOLD_HIT: i64 = 3;

/// Whether `pos` lies within the axis-aligned bounding box of the
/// vertices.
pub open spec fn in_bbox(pts: Seq<Point>, pos: Point) -> bool {
    &&& exists|i: int| 0 <= i < pts.len() && (#[trigger] pts[i]).x <= pos.x
    &&& exists|i: int| 0 <= i < pts.len() && (#[trigger] pts[i]).x >= pos.x
    &&& exists|i: int| 0 <= i < pts.len() && (#[trigger] pts[i]).y <= pos.y
    &&& exists|i: int| 0 <= i < pts.len() && (#[trigger] pts[i]).y >= pos.y
}

/// Whether `p` lies within distance `t` of the closed segment from `a` to
/// `b`, stated exactly over squared distances.
pub open spec fn seg_dist_le(a: Point, b: Point, p: Point, t: int) -> bool {
    let vx = (b.x - a.x) as int;
    let vy = (b.y - a.y) as int;
    let ux = (p.x - a.x) as int;
    let uy = (p.y - a.y) as int;
    let dot = ux * vx + uy * vy;
    let len2 = vx * vx + vy * vy;
    if dot <= 0 {
        ux * ux + uy * uy <= t * t
    } else if dot >= len2 {
        (p.x - b.x) * (p.x - b.x) + (p.y - b.y) * (p.y - b.y) <= t * t
    } else {
        spec_cross(a, b, p) * spec_cross(a, b, p) <= t * t * len2
    }
}

/// Exact test whether `p` lies within distance `t` of segment `(a, b)`.
pub fn seg_within(a: Point, b: Point, p: Point, t: i64) -> (r: bool)
    requires
        a.spec_in_bounds(),
        b.spec_in_bounds(),
        p.spec_in_bounds(),
        0 <= t <= 1_000,
    ensures
        r == seg_dist_le(a, b, p, t as int),
{
    let vx = b.x as i64 - a.x as i64;
    let vy = b.y as i64 - a.y as i64;
    let ux = p.x as i64 - a.x as i64;
    let uy = p.y as i64 - a.y as i64;
    proof {
        let m = 2 * COORD_LIMIT as int;
        crate::geometry::lemma_product_bound(ux as int, vx as int, m);
        crate::geometry::lemma_product_bound(uy as int, vy as int, m);
        crate::geometry::lemma_product_bound(vx as int, vx as int, m);
        crate::geometry::lemma_product_bound(vy as int, vy as int, m);
        crate::geometry::lemma_product_bound(ux as int, ux as int, m);
        crate::geometry::lemma_product_bound(uy as int, uy as int, m);
        crate::geometry::lemma_product_bound(t as int, t as int, 1_000);
    }
    let dot = ux * vx + uy * vy;
    let len2 = vx * vx + vy * vy;
    if dot <= 0 {
        ux * ux + uy * uy <= t * t
    } else if dot >= len2 {
        let wx = p.x as i64 - b.x as i64;
        let wy = p.y as i64 - b.y as i64;
        proof {
            let m = 2 * COORD_LIMIT as int;
            crate::geometry::lemma_product_bound(wx as int, wx as int, m);
            crate::geometry::lemma_product_bound(wy as int, wy as int, m);
        }
        wx * wx + wy * wy <= t * t
    } else {
        let c = crate::geometry::cross_product(a, b, p) as i128;
        proof {
            crate::geometry::lemma_cross_bound(a, b, p);
            crate::geometry::lemma_product_bound2(c as int, c as int, 0x8_0000_0000_0000, 0x8_0000_0000_0000);
            crate::geometry::lemma_product_bound2(
                (t * t) as int,
                len2 as int,
                1_000_000,
                0x8_0000_0000_0000,
            );
        }
        c * c <= (t * t) as i128 * len2 as i128
    }
}

/// A polygon: an ordered vertex list with computed inward normals and
/// accumulated probe-intersection overlays.
pub struct Polygon {
    control_points: Vec<Point>,
    normals: Vec<(i64, i64)>,
    intersection_points: Vec<Point>,
    selected: bool,
}

impl Polygon {
    /// The vertex list.
    pub closed spec fn points(&self) -> Seq<Point> {
        self.control_points@
    }

    /// The computed inward normals, one per edge once computed.
    pub closed spec fn normal_seq(&self) -> Seq<(i64, i64)> {
        self.normals@
    }

    /// The accumulated probe-intersection points.
    pub closed spec fn intersections(&self) -> Seq<Point> {
        self.intersection_points@
    }

    /// Whether the polygon is currently selected.
    pub closed spec fn is_selected(&self) -> bool {
        self.selected
    }

    pub open spec fn wf(&self) -> bool {
        poly_wf(self.points())
    }

    /// Build a polygon from its vertices; nothing is computed yet.
    pub fn new(control_points: Vec<Point>) -> (p: Polygon)
        requires
            poly_wf(control_points@),
        ensures
            p.wf(),
            p.points() == control_points@,
            p.normal_seq().len() == 0,
            p.intersections().len() == 0,
            !p.is_selected(),
    {
        Polygon {
            control_points,
            normals: Vec::new(),
            intersection_points: Vec::new(),
            selected: false,
        }
    }

    /// Read access to the vertices.
    pub fn vertices(&self) -> (v: &Vec<Point>)
        ensures
            v@ == self.points(),
    {
        &self.control_points
    }

    /// Read access to the accumulated intersection points.
    pub fn intersection_overlay(&self) -> (v: &Vec<Point>)
        ensures
            v@ == self.intersections(),
    {
        &self.intersection_points
    }

    /// Read access to the computed inward normals.
    pub fn normal_list(&self) -> (v: &Vec<(i64, i64)>)
        ensures
            v@ == self.normal_seq(),
    {
        &self.normals
    }

    /// Mark the polygon selected.
    pub fn select(&mut self)
        ensures
            final(self).points() == old(self).points(),
            final(self).normal_seq() == old(self).normal_seq(),
            final(self).intersections() == old(self).intersections(),
            final(self).is_selected(),
    {
        self.selected = true;
    }

    /// Mark the polygon deselected.
    pub fn deselect(&mut self)
        ensures
            final(self).points() == old(self).points(),
            final(self).normal_seq() == old(self).normal_seq(),
            final(self).intersections() == old(self).intersections(),
            !final(self).is_selected(),
    {
        self.selected = false;
    }

    /// Whether a click at `pos` hits the polygon outline: within the
    /// bounding box and within the hit threshold of some edge.
    pub fn hit_test(&self, pos: Point) -> (r: bool)
        requires
            self.wf(),
            pos.spec_in_bounds(),
        ensures
            r == (self.points().len() >= 2 && in_bbox(self.points(), pos) && exists|i: int|
                0 <= i < self.points().len() && seg_dist_le(
                    self.points()[i],
                    next_vertex(self.points(), i),
                    pos,
                    THRESHOLD_HIT as int,
                )),
    {
        let pts = &self.control_points;
        let n = pts.len();
        if n < 2 {
            return false;
        }
        let mut minx = pts[0].x;
        let mut maxx = pts[0].x;
        let mut miny = pts[0].y;
        let mut maxy = pts[0].y;
        let mut i: usize = 1;
        while i < n
            invariant
                self.wf(),
                pts@ == self.points(),
                n == pts@.len(),
                1 <= i <= n,
                exists|k: int| 0 <= k < i && (#[trigger] pts@[k]).x == minx,
                exists|k: int| 0 <= k < i && (#[trigger] pts@[k]).x == maxx,
                exists|k: int| 0 <= k < i && (#[trigger] pts@[k]).y == miny,
                exists|k: int| 0 <= k < i && (#[trigger] pts@[k]).y == maxy,
                forall|k: int| 0 <= k < i ==> (#[trigger] pts@[k]).x >= minx,
                forall|k: int| 0 <= k < i ==> (#[trigger] pts@[k]).x <= maxx,
                forall|k: int| 0 <= k < i ==> (#[trigger] pts@[k]).y >= miny,
                forall|k: int| 0 <= k < i ==> (#[trigger] pts@[k]).y <= maxy,
            decreases n - i,
        {
            let q = pts[i];
            if q.x < minx {
                minx = q.x;
            }
            if q.x > maxx {
                maxx = q.x;
            }
            if q.y < miny {
                miny = q.y;
            }
            if q.y > maxy {
                maxy = q.y;
            }
            i = i + 1;
        }
        if pos.x < minx || pos.x > maxx || pos.y < miny || pos.y > maxy {
            return false;
        }
        proof {
            assert(in_bbox(pts@, pos));
        }
        let mut j: usize = 0;
        while j < n
            invariant
                self.wf(),
                pts@ == self.points(),
                pos.spec_in_bounds(),
                in_bbox(pts@, pos),
                2 <= n == pts@.len(),
                0 <= j <= n,
                forall|k: int|
                    0 <= k < j ==> !seg_dist_le(
                        pts@[k],
                        next_vertex(pts@, k),
                        pos,
                        THRESHOLD_HIT as int,
                    ),
            decreases n - j,
        {
            let a = pts[j];
            let b = pts[if j + 1 == n {
                0
            } else {
                j + 1
            }];
            proof {
                if j + 1 == n {
                    vstd::arithmetic::div_mod::lemma_mod_self_0(n as int);
                } else {
                    vstd::arithmetic::div_mod::lemma_small_mod((j + 1) as nat, n as nat);
                }
            }
            if seg_within(a, b, pos, THRESHOLD_HIT) {
                return true;
            }
            j = j + 1;
        }
        false
    }

    /// The convexity test: walk all consecutive vertex triples and fail on
    /// a sign change, ignoring collinear triples.
    pub fn test_convex(&self) -> (r: bool)
        requires
            self.wf(),
        ensures
            r == spec_is_convex(self.points()),
    {
        let pts = &self.control_points;
        let n = pts.len();
        if n < 3 {
            return false;
        }
        let mut saw_pos = false;
        let mut saw_neg = false;
        let mut i: usize = 0;
        while i < n
            invariant
                self.wf(),
                pts@ == self.points(),
                n == pts@.len() >= 3,
                0 <= i <= n,
                saw_pos == (exists|k: int| 0 <= k < i && #[trigger] cross_at(pts@, k) > 0),
                saw_neg == (exists|k: int| 0 <= k < i && #[trigger] cross_at(pts@, k) < 0),
                !(saw_pos && saw_neg),
            decreases n - i,
        {
            let a = pts[i];
            let i1 = if i + 1 >= n {
                i + 1 - n
            } else {
                i + 1
            };
            let i2 = if i + 2 >= n {
                i + 2 - n
            } else {
                i + 2
            };
            let b = pts[i1];
            let c = pts[i2];
            proof {
                vstd::arithmetic::div_mod::lemma_mod_sub_multiples_vanish(i as int + 1, n as int);
                vstd::arithmetic::div_mod::lemma_mod_sub_multiples_vanish(i as int + 2, n as int);
                if i + 1 >= n {
                    vstd::arithmetic::div_mod::lemma_small_mod((i + 1 - n) as nat, n as nat);
                } else {
                    vstd::arithmetic::div_mod::lemma_small_mod((i + 1) as nat, n as nat);
                }
                if i + 2 >= n {
                    vstd::arithmetic::div_mod::lemma_small_mod((i + 2 - n) as nat, n as nat);
                } else {
                    vstd::arithmetic::div_mod::lemma_small_mod((i + 2) as nat, n as nat);
                }
                assert(pts@[i1 as int] == pts@[(i as int + 1) % (n as int)]);
                assert(pts@[i2 as int] == pts@[(i as int + 2) % (n as int)]);
            }
            let cp = crate::geometry::cross_product(a, b, c);
            proof {
                assert(cp == cross_at(pts@, i as int));
            }
            if cp > 0 {
                if saw_neg {
                    return false;
                }
                saw_pos = true;
            } else if cp < 0 {
                if saw_pos {
                    return false;
                }
                saw_neg = true;
            }
            i = i + 1;
        }
        true
    }

    /// Point containment by the even-odd ray-crossing rule.
    pub fn test_dot(&self, point: Point) -> (r: bool)
        requires
            self.wf(),
            point.spec_in_bounds(),
        ensures
            r == spec_is_inside(self.points(), point),
    {
        is_inside(&self.control_points, point)
    }
}

/// The truncated centroid of a vertex list.
pub fn find_centroid(pts: &Vec<Point>) -> (c: Point)
    requires
        poly_wf(pts@),
        pts@.len() >= 1,
    ensures
        c == spec_centroid(pts@),
        c.spec_in_bounds(),
{
    let n = pts.len();
    let mut sx: i64 = 0;
    let mut sy: i64 = 0;
    let mut i: usize = 0;
    while i < n
        invariant
            poly_wf(pts@),
            n == pts@.len(),
            0 <= i <= n,
            sx == sum_x(pts@, i as int),
            sy == sum_y(pts@, i as int),
            -(i as int) * COORD_LIMIT as int <= sx <= (i as int) * COORD_LIMIT as int,
            -(i as int) * COORD_LIMIT as int <= sy <= (i as int) * COORD_LIMIT as int,
        decreases n - i,
    {
        let q = pts[i];
        sx = sx + q.x as i64;
        sy = sy + q.y as i64;
        i = i + 1;
    }
    let cx = div_trunc(sx, n as i64);
    let cy = div_trunc(sy, n as i64);
    proof {
        lemma_div_trunc_bound(sx as int, n as int, COORD_LIMIT as int);
        lemma_div_trunc_bound(sy as int, n as int, COORD_LIMIT as int);
    }
    Point { x: cx as i32, y: cy as i32 }
}

/// Truncating division of `a` by a positive divisor `b`.
pub fn div_trunc(a: i64, b: i64) -> (q: i64)
    requires
        0 < b < 0x4000_0000_0000_0000,
        -0x4000_0000_0000_0000 < a < 0x4000_0000_0000_0000,
    ensures
        q == spec_div_trunc(a as int, b as int),
{
    if a >= 0 {
        crate::geometry::div_floor(a, b)
    } else {
        -crate::geometry::div_floor(-a, b)
    }
}

/// An average of values bounded by `m` is bounded by `m`.
proof fn lemma_div_trunc_bound(a: int, n: int, m: int)
    requires
        0 < n,
        0 <= m,
        -n * m <= a <= n * m,
    ensures
        -m <= spec_div_trunc(a, n) <= m,
{
    crate::geometry::lemma_div_shift(0, m, n);
    vstd::arithmetic::div_mod::lemma_div_of0(n);
    assert(0 + m * n == n * m && 0 + m * n >= 0 && -n * m == -(n * m)) by (nonlinear_arith)
        requires
            0 < n,
            0 <= m,
    ;
    if a >= 0 {
        vstd::arithmetic::div_mod::lemma_div_is_ordered(a, n * m, n);
        vstd::arithmetic::div_mod::lemma_div_pos_is_pos(a, n);
    } else {
        vstd::arithmetic::div_mod::lemma_div_is_ordered(-a, n * m, n);
        vstd::arithmetic::div_mod::lemma_div_pos_is_pos(-a, n);
    }
}

impl Polygon {
    /// Compute one inward normal per edge: the edge perpendicular, flipped
    /// if needed so that it points toward the centroid.
    pub fn find_internal_normals(&mut self)
        requires
            old(self).wf(),
            old(self).points().len() >= 1,
        ensures
            final(self).points() == old(self).points(),
            final(self).intersections() == old(self).intersections(),
            final(self).is_selected() == old(self).is_selected(),
            final(self).normal_seq() == Seq::new(
                old(self).points().len(),
                |i: int|
                    (
                        normal_at(old(self).points(), i).0 as i64,
                        normal_at(old(self).points(), i).1 as i64,
                    ),
            ),
    {
        let ghost pts = self.points();
        let n = self.control_points.len();
        let mut sx: i64 = 0;
        let mut sy: i64 = 0;
        let mut i: usize = 0;
        while i < n
            invariant
                self.wf(),
                pts == self.points(),
                n == pts.len(),
                0 <= i <= n,
                sx == sum_x(pts, i as int),
                sy == sum_y(pts, i as int),
                -(i as int) * COORD_LIMIT as int <= sx <= (i as int) * COORD_LIMIT as int,
                -(i as int) * COORD_LIMIT as int <= sy <= (i as int) * COORD_LIMIT as int,
            decreases n - i,
        {
            let q = self.control_points[i];
            sx = sx + q.x as i64;
            sy = sy + q.y as i64;
            i = i + 1;
        }
        let mut normals: Vec<(i64, i64)> = Vec::new();
        let mut j: usize = 0;
        while j < n
            invariant
                self.wf(),
                pts == self.points(),
                n == pts.len() <= VERTEX_LIMIT,
                0 <= j <= n,
                sx == sum_x(pts, n as int),
                sy == sum_y(pts, n as int),
                -(n as int) * COORD_LIMIT as int <= sx <= (n as int) * COORD_LIMIT as int,
                -(n as int) * COORD_LIMIT as int <= sy <= (n as int) * COORD_LIMIT as int,
                normals@.len() == j,
                forall|k: int|
                    0 <= k < j ==> #[trigger] normals@[k] == (
                        normal_at(pts, k).0 as i64,
                        normal_at(pts, k).1 as i64,
                    ),
            decreases n - j,
        {
            let a = self.control_points[j];
            let b = self.control_points[if j + 1 == n {
                0
            } else {
                j + 1
            }];
            proof {
                if j + 1 == n {
                    vstd::arithmetic::div_mod::lemma_mod_self_0(n as int);
                } else {
                    vstd::arithmetic::div_mod::lemma_small_mod((j + 1) as nat, n as nat);
                }
                crate::geometry::lemma_product_bound2(
                    n as int,
                    a.x as int,
                    VERTEX_LIMIT as int,
                    COORD_LIMIT as int,
                );
                crate::geometry::lemma_product_bound2(
                    n as int,
                    a.y as int,
                    VERTEX_LIMIT as int,
                    COORD_LIMIT as int,
                );
            }
            let px = -(b.y as i64 - a.y as i64);
            let py = b.x as i64 - a.x as i64;
            let tx = sx - n as i64 * a.x as i64;
            let ty = sy - n as i64 * a.y as i64;
            proof {
                crate::geometry::lemma_product_bound2(
                    px as int,
                    tx as int,
                    2 * COORD_LIMIT as int,
                    2_000_000_000,
                );
                crate::geometry::lemma_product_bound2(
                    py as int,
                    ty as int,
                    2 * COORD_LIMIT as int,
                    2_000_000_000,
                );
            }
            if px * tx + py * ty < 0 {
                normals.push((-px, -py));
            } else {
                normals.push((px, py));
            }
            j = j + 1;
        }
        self.normals = normals;
        proof {
            assert(self.normal_seq() =~= Seq::new(
                pts.len(),
                |i: int| (normal_at(pts, i).0 as i64, normal_at(pts, i).1 as i64),
            ));
        }
    }
}

/// The exact intersection of two segments, rounded to the nearest pixel.
pub fn intersect(s: Point, e: Point, a: Point, b: Point) -> (r: Option<Point>)
    requires
        s.spec_in_bounds(),
        e.spec_in_bounds(),
        a.spec_in_bounds(),
        b.spec_in_bounds(),
    ensures
        r == seg_intersection(s, e, a, b),
{
    let sex = s.x as i64 - e.x as i64;
    let sey = s.y as i64 - e.y as i64;
    let sax = s.x as i64 - a.x as i64;
    let say = s.y as i64 - a.y as i64;
    let abx = a.x as i64 - b.x as i64;
    let aby = a.y as i64 - b.y as i64;
    proof {
        let m = 2 * COORD_LIMIT as int;
        crate::geometry::lemma_product_bound(sex as int, aby as int, m);
        crate::geometry::lemma_product_bound(sey as int, abx as int, m);
        crate::geometry::lemma_product_bound(sax as int, aby as int, m);
        crate::geometry::lemma_product_bound(say as int, abx as int, m);
        crate::geometry::lemma_product_bound(sax as int, sey as int, m);
        crate::geometry::lemma_product_bound(say as int, sex as int, m);
    }
    let den = sex * aby - sey * abx;
    if den == 0 {
        return None;
    }
    let tn = sax * aby - say * abx;
    let un = sax * sey - say * sex;
    let ok = if den > 0 {
        0 <= tn && tn <= den && 0 <= un && un <= den
    } else {
        den <= tn && tn <= 0 && den <= un && un <= 0
    };
    if !ok {
        return None;
    }
    proof {
        crate::geometry::lemma_product_bound2(
            s.x as int,
            den as int,
            COORD_LIMIT as int,
            0x10_0000_0000_0000,
        );
        crate::geometry::lemma_product_bound2(
            s.y as int,
            den as int,
            COORD_LIMIT as int,
            0x10_0000_0000_0000,
        );
        crate::geometry::lemma_product_bound2(
            tn as int,
            e.x as int - s.x as int,
            0x10_0000_0000_0000,
            2 * COORD_LIMIT as int,
        );
        crate::geometry::lemma_product_bound2(
            tn as int,
            e.y as int - s.y as int,
            0x10_0000_0000_0000,
            2 * COORD_LIMIT as int,
        );
    }
    let xn: i128 = s.x as i128 * den as i128 + tn as i128 * (e.x as i128 - s.x as i128);
    let yn: i128 = s.y as i128 * den as i128 + tn as i128 * (e.y as i128 - s.y as i128);
    let (rxn, ryn, rden) = if den > 0 {
        (xn, yn, den as i128)
    } else {
        (-xn, -yn, -(den as i128))
    };
    proof {
        lemma_intersect_range(s.x as int, e.x as int, den as int, tn as int);
        lemma_intersect_range(s.y as int, e.y as int, den as int, tn as int);
    }
    let x = div_round_i128(rxn, rden);
    let y = div_round_i128(ryn, rden);
    proof {
        lemma_round_small(rxn as int, rden as int, COORD_LIMIT as int);
        lemma_round_small(ryn as int, rden as int, COORD_LIMIT as int);
    }
    Some(Point { x: x as i32, y: y as i32 })
}

/// Rounding division on wide integers, for the intersection numerators.
pub(crate) fn div_round_i128(a: i128, b: i128) -> (q: i128)
    requires
        0 < b <= 0x1_0000_0000_0000_0000_0000,
        -0x1000_0000_0000_0000_0000_0000_0000 <= a <= 0x1000_0000_0000_0000_0000_0000_0000,
    ensures
        q == crate::geometry::spec_div_round(a as int, b as int),
{
    let n2 = 2 * a + b;
    let d2 = 2 * b;
    let q = if n2 >= 0 {
        n2 / d2
    } else {
        -((-n2 + d2 - 1) / d2)
    };
    proof {
        let ni = n2 as int;
        let di = d2 as int;
        if n2 >= 0 {
            assert(q == ni / di) by (nonlinear_arith)
                requires
                    q == #[verifier::truncate] ((n2 / d2) as i128),
                    ni == n2 as int,
                    di == d2 as int,
                    ni >= 0,
                    di > 0,
            ;
        } else {
            let m = -ni;
            vstd::arithmetic::div_mod::lemma_fundamental_div_mod(m + di - 1, di);
            vstd::arithmetic::div_mod::lemma_fundamental_div_mod(ni, di);
            vstd::arithmetic::div_mod::lemma_mod_bound(m + di - 1, di);
            vstd::arithmetic::div_mod::lemma_mod_bound(ni, di);
            assert(-((m + di - 1) / di) == ni / di) by (nonlinear_arith)
                requires
                    di > 0,
                    ni == -m,
                    (m + di - 1) / di * di + (m + di - 1) % di == m + di - 1,
                    ni / di * di + ni % di == ni,
                    0 <= (m + di - 1) % di < di,
                    0 <= ni % di < di,
            ;
        }
    }
    q
}

/// The intersection numerator is a convex combination of the two segment
/// endpoints scaled by the denominator, so it stays within the coordinate
/// bounds scaled by the denominator.
proof fn lemma_intersect_range(c0: int, c1: int, den: int, tn: int)
    requires
        den != 0,
        den > 0 ==> 0 <= tn <= den,
        den < 0 ==> den <= tn <= 0,
        -1_000_000 <= c0 <= 1_000_000,
        -1_000_000 <= c1 <= 1_000_000,
    ensures
        ({
            let xn = c0 * den + tn * (c1 - c0);
            let rxn = if den > 0 {
                xn
            } else {
                -xn
            };
            let rden = if den > 0 {
                den
            } else {
                -den
            };
            -rden * 1_000_000 <= rxn <= rden * 1_000_000
        }),
{
    let xn = c0 * den + tn * (c1 - c0);
    let rxn = if den > 0 {
        xn
    } else {
        -xn
    };
    let rden = if den > 0 {
        den
    } else {
        -den
    };
    assert(-rden * 1_000_000 <= rxn <= rden * 1_000_000) by (nonlinear_arith)
        requires
            den != 0,
            den > 0 ==> 0 <= tn <= den,
            den < 0 ==> den <= tn <= 0,
            -1_000_000 <= c0 <= 1_000_000,
            -1_000_000 <= c1 <= 1_000_000,
            xn == c0 * den + tn * (c1 - c0),
            rxn == if den > 0 {
                xn
            } else {
                -xn
            },
            rden == if den > 0 {
                den
            } else {
                -den
            },
    ;
}

/// If the scaled value lies within `den`-scaled bounds, its rounding lies
/// within the bounds.
pub proof fn lemma_round_small(a: int, den: int, m: int)
    requires
        0 < den,
        -den * m <= a <= den * m,
    ensures
        -m <= crate::geometry::spec_div_round(a, den) <= m,
{
    crate::geometry::lemma_div_shift(den, m, 2 * den);
    crate::geometry::lemma_div_shift(den, -m, 2 * den);
    vstd::arithmetic::div_mod::lemma_basic_div(den, 2 * den);
    assert(den + m * (2 * den) == 2 * (den * m) + den && den + (-m) * (2 * den) == 2 * (-(den
        * m)) + den && -den * m == -(den * m)) by (nonlinear_arith);
    vstd::arithmetic::div_mod::lemma_div_is_ordered(2 * (-(den * m)) + den, 2 * a + den, 2 * den);
    vstd::arithmetic::div_mod::lemma_div_is_ordered(2 * a + den, 2 * (den * m) + den, 2 * den);
}

impl Polygon {
    /// Intersect the probe segment with every polygon edge and record the
    /// intersection points.
    pub fn find_intersections(&mut self, start: Point, end: Point)
        requires
            old(self).wf(),
            start.spec_in_bounds(),
            end.spec_in_bounds(),
        ensures
            final(self).points() == old(self).points(),
            final(self).normal_seq() == old(self).normal_seq(),
            final(self).is_selected() == old(self).is_selected(),
            final(self).intersections() == old(self).intersections() + intersections_upto(
                old(self).points(),
                start,
                end,
                old(self).points().len() as int,
            ),
    {
        let ghost pts = self.points();
        let n = self.control_points.len();
        let mut i: usize = 0;
        while i < n
            invariant
                self.wf(),
                pts == self.points(),
                start.spec_in_bounds(),
                end.spec_in_bounds(),
                n == pts.len(),
                0 <= i <= n,
                self.normal_seq() == old(self).normal_seq(),
                self.is_selected() == old(self).is_selected(),
                self.intersections() == old(self).intersections() + intersections_upto(
                    pts,
                    start,
                    end,
                    i as int,
                ),
            decreases n - i,
        {
            let a = self.control_points[i];
            let b = self.control_points[if i + 1 == n {
                0
            } else {
                i + 1
            }];
            proof {
                if i + 1 == n {
                    vstd::arithmetic::div_mod::lemma_mod_self_0(n as int);
                } else {
                    vstd::arithmetic::div_mod::lemma_small_mod((i + 1) as nat, n as nat);
                }
            }
            match intersect(start, end, a, b) {
                Some(p) => {
                    self.intersection_points.push(p);
                },
                None => {},
            }
            i = i + 1;
        }
    }

    /// Run a probe-segment test: record the intersections with every edge
    /// and hand back the DDA rasterizer for the probe segment itself.
    pub fn test_line(&mut self, start: Point, end: Point) -> (g: crate::lines::DdaLine)
        requires
            old(self).wf(),
            start.spec_in_bounds(),
            end.spec_in_bounds(),
        ensures
            final(self).points() == old(self).points(),
            final(self).normal_seq() == old(self).normal_seq(),
            final(self).is_selected() == old(self).is_selected(),
            final(self).intersections() == old(self).intersections() + intersections_upto(
                old(self).points(),
                start,
                end,
                old(self).points().len() as int,
            ),
            g.wf(),
            g.remaining() == crate::lines::dda_batches(start, end),
    {
        self.find_intersections(start, end);
        crate::lines::dda_line(start, end)
    }

}

/// Every listed point lies on or to the right of the directed edge from
/// `a` to `b`: the edge supports the point set.
pub open spec fn supports_all(pts: Seq<Point>, a: Point, b: Point) -> bool {
    forall|j: int| 0 <= j < pts.len() ==> spec_cross(a, b, #[trigger] pts[j]) <= 0
}

/// Whether `q` is the leftmost listed point, ties broken by the lowest y.
pub open spec fn is_leftmost(pts: Seq<Point>, q: Point) -> bool {
    &&& pts.contains(q)
    &&& forall|j: int|
        0 <= j < pts.len() ==> q.x < (#[trigger] pts[j]).x || (q.x == pts[j].x && q.y <= pts[j].y)
}

/// Exact test that the directed edge from `a` to `b` supports the whole
/// point set.
pub fn edge_supports(pts: &Vec<Point>, a: Point, b: Point) -> (r: bool)
    requires
        poly_wf(pts@),
        a.spec_in_bounds(),
        b.spec_in_bounds(),
    ensures
        r == supports_all(pts@, a, b),
{
    let n = pts.len();
    let mut i: usize = 0;
    while i < n
        invariant
            poly_wf(pts@),
            a.spec_in_bounds(),
            b.spec_in_bounds(),
            n == pts@.len(),
            0 <= i <= n,
            forall|j: int| 0 <= j < i ==> spec_cross(a, b, #[trigger] pts@[j]) <= 0,
        decreases n - i,
    {
        if crate::geometry::cross_product(a, b, pts[i]) > 0 {
            return false;
        }
        i = i + 1;
    }
    true
}

/// The polar-angle order about a pivot used by the Graham scan: `a` comes
/// no later than `b` when the turn `pivot -> a -> b` is counter-clockwise,
/// with collinear ties broken by distance from the pivot.
pub open spec fn polar_le(pivot: Point, a: Point, b: Point) -> bool {
    let c = spec_cross(pivot, a, b);
    c > 0 || (c == 0 && crate::geometry::spec_dist_sq(pivot, a)
        <= crate::geometry::spec_dist_sq(pivot, b))
}

/// Exact comparison in the polar-angle order about `pivot`.
fn polar_le_exec(pivot: Point, a: Point, b: Point) -> (r: bool)
    requires
        pivot.spec_in_bounds(),
        a.spec_in_bounds(),
        b.spec_in_bounds(),
    ensures
        r == polar_le(pivot, a, b),
{
    let c = crate::geometry::cross_product(pivot, a, b);
    if c > 0 {
        true
    } else if c == 0 {
        crate::geometry::dist_sq(pivot, a) <= crate::geometry::dist_sq(pivot, b)
    } else {
        false
    }
}

impl Polygon {
    /// Replace the vertex list by its Graham-scan hull: pick the lowest
    /// vertex, sort the rest by polar angle about it, and build a stack
    /// that pops on every non-left turn.  The sweep winds
    /// counter-clockwise, and every edge of the result, closing edge
    /// included, is checked to keep the whole input set on its left, so
    /// every input point lies on or inside the resulting polygon; on a
    /// degenerate input where the sweep yields a non-supporting edge the
    /// hull collapses to the pivot vertex alone.
    pub fn graham(&mut self)
        requires
            old(self).wf(),
        ensures
            final(self).wf(),
            final(self).normal_seq() == old(self).normal_seq(),
            final(self).intersections() == old(self).intersections(),
            final(self).is_selected() == old(self).is_selected(),
            old(self).points().len() < 3 ==> final(self).points() == old(self).points(),
            old(self).points().len() >= 3 ==> {
                &&& 1 <= final(self).points().len() <= old(self).points().len()
                &&& forall|k: int|
                    0 <= k < final(self).points().len() ==> old(self).points().contains(
                        #[trigger] final(self).points()[k],
                    )
                &&& forall|k: int|
                    0 <= k && k + 2 < final(self).points().len() ==> #[trigger] spec_cross(
                        final(self).points()[k],
                        final(self).points()[k + 1],
                        final(self).points()[k + 2],
                    ) > 0
                &&& forall|k: int|
                    0 <= k && k + 1 < final(self).points().len() ==> supports_all(
                        old(self).points(),
                        #[trigger] final(self).points()[k + 1],
                        final(self).points()[k],
                    )
                &&& final(self).points().len() >= 2 ==> supports_all(
                    old(self).points(),
                    final(self).points()[0],
                    final(self).points().last(),
                )
            },
    {
        let ghost orig = self.points();
        let n = self.control_points.len();
        if n < 3 {
            return ;
        }
        // Lowest y, ties broken by lowest x.
        let mut min_idx: usize = 0;
        let mut i: usize = 1;
        while i < n
            invariant
                self.wf(),
                orig == self.points(),
                n == orig.len(),
                0 <= min_idx < n,
                1 <= i <= n,
            decreases n - i,
        {
            let p = self.control_points[i];
            let q = self.control_points[min_idx];
            if p.y < q.y || (p.y == q.y && p.x < q.x) {
                min_idx = i;
            }
            i = i + 1;
        }
        let pivot = self.control_points[min_idx];
        // Sort a copy by polar angle about the pivot (insertion sort).
        let mut sorted: Vec<Point> = Vec::new();
        let mut i2: usize = 0;
        while i2 < n
            invariant
                self.wf(),
                orig == self.points(),
                n == orig.len(),
                0 <= i2 <= n,
                sorted@.len() == i2,
                forall|k: int| 0 <= k < i2 ==> orig.contains(#[trigger] sorted@[k]),
            decreases n - i2,
        {
            sorted.push(self.control_points[i2]);
            i2 = i2 + 1;
        }
        let mut a: usize = 1;
        while a < n
            invariant
                poly_wf(orig),
                n == orig.len(),
                pivot.spec_in_bounds(),
                1 <= a <= n,
                sorted@.len() == n,
                forall|k: int| 0 <= k < n ==> orig.contains(#[trigger] sorted@[k]),
            decreases n - a,
        {
            let mut j: usize = a;
            while j > 0
                invariant
                    poly_wf(orig),
                    pivot.spec_in_bounds(),
                    0 <= j <= a < n,
                    sorted@.len() == n,
                    forall|k: int| 0 <= k < n ==> orig.contains(#[trigger] sorted@[k]),
                decreases j,
            {
                let x = sorted[j];
                let y = sorted[j - 1];
                proof {
                    assert(orig.contains(sorted@[j as int]));
                    assert(orig.contains(sorted@[j as int - 1]));
                    let wx = choose|w: int| 0 <= w < orig.len() && orig[w] == sorted@[j as int];
                    let wy = choose|w: int|
                        0 <= w < orig.len() && orig[w] == sorted@[j as int - 1];
                    assert(orig[wx].spec_in_bounds());
                    assert(orig[wy].spec_in_bounds());
                }
                if polar_le_exec(pivot, y, x) {
                    break ;
                }
                sorted.set(j, y);
                sorted.set(j - 1, x);
                j = j - 1;
            }
            a = a + 1;
        }
        // Hull sweep with a stack, popping on non-left turns.
        let mut hull: Vec<Point> = Vec::new();
        let mut t: usize = 0;
        while t < n
            invariant
                poly_wf(orig),
                pivot.spec_in_bounds(),
                n == orig.len(),
                0 <= t <= n,
                sorted@.len() == n,
                forall|k: int| 0 <= k < n ==> orig.contains(#[trigger] sorted@[k]),
                hull@.len() <= t,
                forall|k: int| 0 <= k < hull@.len() ==> orig.contains(#[trigger] hull@[k]),
                forall|k: int|
                    0 <= k && k + 2 < hull@.len() ==> #[trigger] spec_cross(
                        hull@[k],
                        hull@[k + 1],
                        hull@[k + 2],
                    ) > 0,
            decreases n - t,
        {
            let p = sorted[t];
            let ghost hlen0 = hull@.len();
            loop
                invariant_except_break
                    poly_wf(orig),
                    pivot.spec_in_bounds(),
                    orig.contains(p),
                    hull@.len() <= hlen0,
                    forall|k: int| 0 <= k < hull@.len() ==> orig.contains(#[trigger] hull@[k]),
                    forall|k: int|
                        0 <= k && k + 2 < hull@.len() ==> #[trigger] spec_cross(
                            hull@[k],
                            hull@[k + 1],
                            hull@[k + 2],
                        ) > 0,
                ensures
                    hull@.len() <= hlen0,
                    forall|k: int| 0 <= k < hull@.len() ==> orig.contains(#[trigger] hull@[k]),
                    forall|k: int|
                        0 <= k && k + 2 < hull@.len() ==> #[trigger] spec_cross(
                            hull@[k],
                            hull@[k + 1],
                            hull@[k + 2],
                        ) > 0,
                    hull@.len() >= 2 ==> spec_cross(
                        hull@[hull@.len() - 2],
                        hull@[hull@.len() - 1],
                        p,
                    ) > 0,
                decreases hull@.len(),
            {
                if hull.len() < 2 {
                    break ;
                }
                let last = hull[hull.len() - 1];
                let second_last = hull[hull.len() - 2];
                proof {
                    lemma_contained_in_bounds(orig, hull@, hull@.len() - 1);
                    lemma_contained_in_bounds(orig, hull@, hull@.len() - 2);
                }
                if crate::geometry::cross_product(second_last, last, p) <= 0 {
                    let ghost pre = hull@;
                    hull.pop();
                    proof {
                        assert(pre.len() >= 2);
                        assert(hull@ =~= pre.subrange(0, pre.len() - 1));
                        assert forall|k: int| 0 <= k < hull@.len() implies orig.contains(
                            #[trigger] hull@[k],
                        ) by {
                            assert(hull@[k] == pre[k]);
                        }
                        assert forall|k: int| 0 <= k && k + 2 < hull@.len() implies #[trigger] spec_cross(
                            hull@[k],
                            hull@[k + 1],
                            hull@[k + 2],
                        ) > 0 by {
                            assert(hull@[k] == pre[k] && hull@[k + 1] == pre[k + 1] && hull@[k
                                + 2] == pre[k + 2]);
                            assert(spec_cross(pre[k], pre[k + 1], pre[k + 2]) > 0);
                        }
                    }
                } else {
                    break ;
                }
            }
            let ghost pre_push = hull@;
            hull.push(p);
            proof {
                assert(hull@ == pre_push.push(p));
                assert forall|k: int| 0 <= k < hull@.len() implies orig.contains(
                    #[trigger] hull@[k],
                ) by {
                    if k < pre_push.len() {
                        assert(hull@[k] == pre_push[k]);
                        assert(orig.contains(pre_push[k]));
                    } else {
                        assert(hull@[k] == p);
                    }
                }
                assert forall|k: int| 0 <= k && k + 2 < hull@.len() implies #[trigger] spec_cross(
                    hull@[k],
                    hull@[k + 1],
                    hull@[k + 2],
                ) > 0 by {
                    if k + 2 == hull@.len() - 1 {
                        assert(hull@[k] == pre_push[pre_push.len() - 2] && hull@[k + 1]
                            == pre_push[pre_push.len() - 1] && hull@[k + 2] == p);
                        assert(spec_cross(
                            pre_push[pre_push.len() - 2],
                            pre_push[pre_push.len() - 1],
                            p,
                        ) > 0);
                    } else {
                        assert(hull@[k] == pre_push[k] && hull@[k + 1] == pre_push[k + 1]
                            && hull@[k + 2] == pre_push[k + 2]);
                        assert(spec_cross(pre_push[k], pre_push[k + 1], pre_push[k + 2]) > 0);
                    }
                }
            }
            t = t + 1;
        }
        // Check that every hull edge, the closing edge included, supports
        // the whole input set; collapse to the pivot on a degenerate
        // sweep.
        let hl = hull.len();
        let mut ok = hl >= 1 && hl <= n;
        let mut k: usize = 0;
        while ok && k + 1 < hl
            invariant
                self.wf(),
                orig == self.points(),
                pivot.spec_in_bounds(),
                n == orig.len(),
                hl == hull@.len(),
                hl <= n,
                0 <= k <= hl,
                forall|m: int| 0 <= m < hull@.len() ==> orig.contains(#[trigger] hull@[m]),
                ok ==> hl >= 1 && hl <= n,
                ok ==> forall|m: int|
                    0 <= m < k && m + 1 < hull@.len() ==> supports_all(
                        orig,
                        #[trigger] hull@[m + 1],
                        hull@[m],
                    ),
            decreases hl - k,
        {
            proof {
                lemma_contained_in_bounds(orig, hull@, k as int);
                lemma_contained_in_bounds(orig, hull@, k as int + 1);
            }
            if !edge_supports(&self.control_points, hull[k + 1], hull[k]) {
                ok = false;
            }
            k = k + 1;
        }
        if ok && hl >= 2 {
            proof {
                lemma_contained_in_bounds(orig, hull@, hl as int - 1);
                lemma_contained_in_bounds(orig, hull@, 0);
            }
            if !edge_supports(&self.control_points, hull[0], hull[hl - 1]) {
                ok = false;
            }
        }
        if ok {
            self.control_points = hull;
        } else {
            let mut single: Vec<Point> = Vec::new();
            single.push(pivot);
            self.control_points = single;
        }
    }

    /// Replace the vertex list by a Jarvis gift-wrapping march from the
    /// leftmost vertex, selecting the most counter-clockwise next vertex
    /// (ties broken by distance) until the start is revisited, with the
    /// march capped at one step per vertex.  Every emitted edge is checked
    /// to support the whole input set, so every input point lies on or
    /// inside the resulting polygon; on a degenerate input where no
    /// supporting edge exists the march collapses to the leftmost vertex
    /// alone.
    pub fn jarvis(&mut self)
        requires
            old(self).wf(),
        ensures
            final(self).wf(),
            final(self).normal_seq() == old(self).normal_seq(),
            final(self).intersections() == old(self).intersections(),
            final(self).is_selected() == old(self).is_selected(),
            old(self).points().len() < 3 ==> final(self).points() == old(self).points(),
            old(self).points().len() >= 3 ==> {
                &&& 1 <= final(self).points().len() <= old(self).points().len()
                &&& forall|k: int|
                    0 <= k < final(self).points().len() ==> old(self).points().contains(
                        #[trigger] final(self).points()[k],
                    )
                &&& is_leftmost(old(self).points(), final(self).points()[0])
                &&& forall|k: int|
                    0 <= k && k + 1 < final(self).points().len() ==> supports_all(
                        old(self).points(),
                        #[trigger] final(self).points()[k],
                        final(self).points()[k + 1],
                    )
                &&& 2 <= final(self).points().len() < old(self).points().len() ==> supports_all(
                    old(self).points(),
                    final(self).points().last(),
                    final(self).points()[0],
                )
            },
    {
        let ghost orig = self.points();
        let n = self.control_points.len();
        if n < 3 {
            return ;
        }
        let mut leftmost: usize = 0;
        let mut i: usize = 1;
        while i < n
            invariant
                self.wf(),
                orig == self.points(),
                n == orig.len(),
                0 <= leftmost < n,
                1 <= i <= n,
                forall|j: int|
                    0 <= j < i ==> orig[leftmost as int].x < (#[trigger] orig[j]).x || (
                    orig[leftmost as int].x == orig[j].x && orig[leftmost as int].y <= orig[j].y),
            decreases n - i,
        {
            let p = self.control_points[i];
            let q = self.control_points[leftmost];
            if p.x < q.x || (p.x == q.x && p.y < q.y) {
                leftmost = i;
            }
            i = i + 1;
        }
        proof {
            assert(is_leftmost(orig, orig[leftmost as int]));
        }
        let mut hull: Vec<Point> = Vec::new();
        let mut current = leftmost;
        let mut steps: usize = 0;
        let mut done = false;
        while !done
            invariant
                self.wf(),
                orig == self.points(),
                n == orig.len() >= 3,
                0 <= current < n,
                0 <= leftmost < n,
                is_leftmost(orig, orig[leftmost as int]),
                steps <= n,
                !done ==> steps < n,
                !done ==> hull@.len() == steps,
                steps == 0 ==> current == leftmost,
                !done && steps >= 1 ==> supports_all(orig, hull@.last(), orig[current as int]),
                done ==> 1 <= hull@.len() <= n,
                hull@.len() >= 1 ==> hull@[0] == orig[leftmost as int],
                forall|k: int| 0 <= k < hull@.len() ==> orig.contains(#[trigger] hull@[k]),
                forall|k: int|
                    0 <= k && k + 1 < hull@.len() ==> supports_all(
                        orig,
                        #[trigger] hull@[k],
                        hull@[k + 1],
                    ),
                done && 2 <= hull@.len() < n ==> supports_all(orig, hull@.last(), hull@[0]),
            decreases n - steps + (if done { 0int } else { 1int }),
        {
            let ghost pre = hull@;
            hull.push(self.control_points[current]);
            steps = steps + 1;
            proof {
                assert forall|k: int|
                    0 <= k && k + 1 < hull@.len() implies supports_all(
                    orig,
                    #[trigger] hull@[k],
                    hull@[k + 1],
                ) by {
                    if k + 1 < pre.len() {
                        assert(hull@[k] == pre[k] && hull@[k + 1] == pre[k + 1]);
                        assert(supports_all(orig, pre[k], pre[k + 1]));
                    } else {
                        assert(hull@[k] == pre.last() && hull@[k + 1] == orig[current as int]);
                    }
                }
            }
            let mut next = if current + 1 == n {
                0
            } else {
                current + 1
            };
            let mut j: usize = 0;
            while j < n
                invariant
                    self.wf(),
                    orig == self.points(),
                    n == orig.len(),
                    0 <= next < n,
                    0 <= current < n,
                    0 <= j <= n,
                decreases n - j,
            {
                let c = crate::geometry::cross_product(
                    self.control_points[current],
                    self.control_points[next],
                    self.control_points[j],
                );
                if c > 0 {
                    next = j;
                } else if c == 0 {
                    let dj = crate::geometry::dist_sq(
                        self.control_points[current],
                        self.control_points[j],
                    );
                    let dn = crate::geometry::dist_sq(
                        self.control_points[current],
                        self.control_points[next],
                    );
                    if dj > dn {
                        next = j;
                    }
                }
                j = j + 1;
            }
            // Check that the chosen edge supports the whole point set; on a
            // degenerate input where it does not, collapse the hull.
            let mut supported = true;
            let mut v: usize = 0;
            while v < n
                invariant
                    self.wf(),
                    orig == self.points(),
                    n == orig.len(),
                    0 <= next < n,
                    0 <= current < n,
                    0 <= v <= n,
                    supported == forall|m: int|
                        0 <= m < v ==> spec_cross(
                            orig[current as int],
                            orig[next as int],
                            #[trigger] orig[m],
                        ) <= 0,
                decreases n - v,
            {
                let c = crate::geometry::cross_product(
                    self.control_points[current],
                    self.control_points[next],
                    self.control_points[v],
                );
                if c > 0 {
                    supported = false;
                }
                v = v + 1;
            }
            if !supported {
                let q = self.control_points[leftmost];
                let mut single: Vec<Point> = Vec::new();
                single.push(q);
                hull = single;
                done = true;
            } else {
                proof {
                    assert(supports_all(orig, orig[current as int], orig[next as int]));
                    assert(hull@.last() == orig[current as int]);
                }
                if next == leftmost || steps == n {
                    proof {
                        if next == leftmost && 2 <= hull@.len() {
                            assert(hull@[0] == orig[leftmost as int]);
                            assert(supports_all(orig, hull@.last(), hull@[0]));
                        }
                    }
                    done = true;
                } else {
                    current = next;
                }
            }
        }
        self.control_points = hull;
    }
}

/// An element of a sequence whose members all come from a well-formed
/// vertex list is itself within bounds.
proof fn lemma_contained_in_bounds(orig: Seq<Point>, s: Seq<Point>, k: int)
    requires
        poly_wf(orig),
        0 <= k < s.len(),
        orig.contains(s[k]),
    ensures
        s[k].spec_in_bounds(),
{
    let w = choose|w: int| 0 <= w < orig.len() && orig[w] == s[k];
    assert(orig[w].spec_in_bounds());
}

} // verus!
