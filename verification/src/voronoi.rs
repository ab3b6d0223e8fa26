//! The Voronoi diagram as the geometric dual of the Delaunay
//! triangulation: segments between circumcenters of adjacent triangles,
//! and outward rays along perpendicular bisectors for boundary edges.

use vstd::prelude::*;

use crate::delone::Delone;
use crate::delone::Edge;
use crate::delone::Triangle;
use crate::delone::spec_edges;
use crate::delone::tri_wf;
use crate::geometry::Point;

verus! {

/// The circumcenter denominator: twice the triangle's signed area; zero
/// exactly for collinear vertices.
pub open spec fn center_den(t: Triangle) -> int {
    2 * (t.a.x * (t.b.y - t.c.y) + t.b.x * (t.c.y - t.a.y) + t.c.x * (t.a.y - t.b.y))
}

/// The circumcenter numerators over `center_den`.
pub open spec fn center_num_x(t: Triangle) -> int {
    (t.a.x * t.a.x + t.a.y * t.a.y) * (t.b.y - t.c.y) + (t.b.x * t.b.x + t.b.y * t.b.y) * (t.c.y
        - t.a.y) + (t.c.x * t.c.x + t.c.y * t.c.y) * (t.a.y - t.b.y)
}

pub open spec fn center_num_y(t: Triangle) -> int {
    (t.a.x * t.a.x + t.a.y * t.a.y) * (t.c.x - t.b.x) + (t.b.x * t.b.x + t.b.y * t.b.y) * (t.a.x
        - t.c.x) + (t.c.x * t.c.x + t.c.y * t.c.y) * (t.b.x - t.a.x)
}

/// The circumcenter rounded to the nearest pixel, or `None` for a
/// degenerate (collinear) triangle, which has no circumcircle.
pub open spec fn spec_center_point(t: Triangle) -> Option<(int, int)> {
    let den = center_den(t);
    if den == 0 {
        Option::None
    } else {
        let (nx, ny, d) = if den > 0 {
            (center_num_x(t), center_num_y(t), den)
        } else {
            (-center_num_x(t), -center_num_y(t), -den)
        };
        Option::Some(
            (crate::geometry::spec_div_round(nx, d), crate::geometry::spec_div_round(ny, d)),
        )
    }
}

impl Triangle {
    /// The rounded circumcenter, or `None` for a collinear triangle.
    pub fn get_center_point(&self) -> (r: Option<(i64, i64)>)
        requires
            tri_wf(*self),
        ensures
            match r {
                Some(p) => spec_center_point(*self) == Option::Some((p.0 as int, p.1 as int))
                    && -0x6000_0000_0000_0000 <= p.0 <= 0x6000_0000_0000_0000
                    && -0x6000_0000_0000_0000 <= p.1 <= 0x6000_0000_0000_0000,
                None => spec_center_point(*self) is None,
            },
    {
        let t = *self;
        proof {
            let m = 2_000_000_000_000int;
            crate::geometry::lemma_product_bound2(t.a.x as int, t.b.y as int - t.c.y as int, 1_000_000, 2_000_000);
            crate::geometry::lemma_product_bound2(t.b.x as int, t.c.y as int - t.a.y as int, 1_000_000, 2_000_000);
            crate::geometry::lemma_product_bound2(t.c.x as int, t.a.y as int - t.b.y as int, 1_000_000, 2_000_000);
        }
        let den: i64 = 2 * (t.a.x as i64 * (t.b.y as i64 - t.c.y as i64) + t.b.x as i64 * (t.c.y
            as i64 - t.a.y as i64) + t.c.x as i64 * (t.a.y as i64 - t.b.y as i64));
        if den == 0 {
            return None;
        }
        proof {
            let m2 = 2_000_000_000_000int;
            crate::geometry::lemma_product_bound(t.a.x as int, t.a.x as int, 1_000_000);
            crate::geometry::lemma_product_bound(t.a.y as int, t.a.y as int, 1_000_000);
            crate::geometry::lemma_product_bound(t.b.x as int, t.b.x as int, 1_000_000);
            crate::geometry::lemma_product_bound(t.b.y as int, t.b.y as int, 1_000_000);
            crate::geometry::lemma_product_bound(t.c.x as int, t.c.x as int, 1_000_000);
            crate::geometry::lemma_product_bound(t.c.y as int, t.c.y as int, 1_000_000);
        }
        let la: i128 = t.a.x as i128 * t.a.x as i128 + t.a.y as i128 * t.a.y as i128;
        let lb: i128 = t.b.x as i128 * t.b.x as i128 + t.b.y as i128 * t.b.y as i128;
        let lc: i128 = t.c.x as i128 * t.c.x as i128 + t.c.y as i128 * t.c.y as i128;
        proof {
            crate::geometry::lemma_product_bound2(la as int, t.b.y as int - t.c.y as int, 2_000_000_000_000, 2_000_000);
            crate::geometry::lemma_product_bound2(lb as int, t.c.y as int - t.a.y as int, 2_000_000_000_000, 2_000_000);
            crate::geometry::lemma_product_bound2(lc as int, t.a.y as int - t.b.y as int, 2_000_000_000_000, 2_000_000);
            crate::geometry::lemma_product_bound2(la as int, t.c.x as int - t.b.x as int, 2_000_000_000_000, 2_000_000);
            crate::geometry::lemma_product_bound2(lb as int, t.a.x as int - t.c.x as int, 2_000_000_000_000, 2_000_000);
            crate::geometry::lemma_product_bound2(lc as int, t.b.x as int - t.a.x as int, 2_000_000_000_000, 2_000_000);
        }
        let nx: i128 = la * (t.b.y as i128 - t.c.y as i128) + lb * (t.c.y as i128 - t.a.y as i128)
            + lc * (t.a.y as i128 - t.b.y as i128);
        let ny: i128 = la * (t.c.x as i128 - t.b.x as i128) + lb * (t.a.x as i128 - t.c.x as i128)
            + lc * (t.b.x as i128 - t.a.x as i128);
        let (rnx, rny, rden) = if den > 0 {
            (nx, ny, den as i128)
        } else {
            (-nx, -ny, -(den as i128))
        };
        let x = crate::polygon::div_round_i128(rnx, rden);
        let y = crate::polygon::div_round_i128(rny, rden);
        proof {
            assert(rden >= 2 && -13_000_000_000_000_000_000 <= rnx <= 13_000_000_000_000_000_000
                && -13_000_000_000_000_000_000 <= rny <= 13_000_000_000_000_000_000);
            assert(-rden as int * 6_500_000_000_000_000_000 <= rnx as int <= rden as int
                * 6_500_000_000_000_000_000 && -rden as int * 6_500_000_000_000_000_000
                <= rny as int <= rden as int * 6_500_000_000_000_000_000) by (nonlinear_arith)
                requires
                    rden >= 2,
                    -13_000_000_000_000_000_000 <= rnx as int <= 13_000_000_000_000_000_000,
                    -13_000_000_000_000_000_000 <= rny as int <= 13_000_000_000_000_000_000,
            ;
            crate::polygon::lemma_round_small(rnx as int, rden as int, 6_500_000_000_000_000_000);
            crate::polygon::lemma_round_small(rny as int, rden as int, 6_500_000_000_000_000_000);
        }
        Some((x as i64, y as i64))
    }

    /// The vertex of the triangle that is neither endpoint of the given
    /// edge.
    pub fn get_third_vertex(&self, point1: Point, point2: Point) -> (r: Point)
        ensures
            r == third_of(*self, point1, point2),
    {
        if self.a != point1 && self.a != point2 {
            self.a
        } else if self.b != point1 && self.b != point2 {
            self.b
        } else {
            self.c
        }
    }
}

/// The vertex of `t` that is neither `point1` nor `point2`.
pub open spec fn third_of(t: Triangle, point1: Point, point2: Point) -> Point {
    if t.a != point1 && t.a != point2 {
        t.a
    } else if t.b != point1 && t.b != point2 {
        t.b
    } else {
        t.c
    }
}

/// Whether `e` is one of `u`'s canonical edges.
pub open spec fn has_edge(u: Triangle, e: Edge) -> bool {
    spec_edges(u).contains(e)
}

/// The last triangle among the first `j`, other than triangle `i`, that
/// carries edge `e` — the adjacency search of the dual construction.
pub open spec fn adj_search(tris: Seq<Triangle>, i: int, e: Edge, j: int) -> Option<Triangle>
    decreases j,
{
    if j <= 0 {
        Option::None
    } else if j - 1 != i && has_edge(tris[j - 1], e) {
        Option::Some(tris[j - 1])
    } else {
        adj_search(tris, i, e, j - 1)
    }
}

/// A drawn segment.
pub type VSeg = ((i64, i64), (i64, i64));

/// The segment joining the circumcenters of two adjacent triangles, or
/// nothing when either is collinear.
pub open spec fn seg_between(t: Triangle, u: Triangle) -> Seq<VSeg> {
    match (spec_center_point(t), spec_center_point(u)) {
        (Option::Some(p), Option::Some(q)) => seq![
            (((p.0 as i64), (p.1 as i64)), ((q.0 as i64), (q.1 as i64))),
        ],
        _ => Seq::empty(),
    }
}

/// The outward ray a boundary edge contributes: from the circumcenter,
/// along the edge's perpendicular bisector, directed away from the third
/// vertex, with length close to ten thousand pixels.
pub open spec fn ray_of(t: Triangle, e: Edge) -> Seq<VSeg> {
    match spec_center_point(t) {
        Option::None => Seq::empty(),
        Option::Some(p) => {
            let third = third_of(t, e.a, e.b);
            let ex = e.b.x - e.a.x;
            let ey = e.b.y - e.a.y;
            if ex == 0 && ey == 0 {
                Seq::empty()
            } else {
                let px0 = -ey;
                let py0 = ex;
                let tx = 2 * third.x - (e.a.x + e.b.x);
                let ty = 2 * third.y - (e.a.y + e.b.y);
                let px = if px0 * tx + py0 * ty > 0 {
                    -px0
                } else {
                    px0
                };
                let py = if px0 * tx + py0 * ty > 0 {
                    -py0
                } else {
                    py0
                };
                let norm = crate::second_order_lines::spec_isqrt(
                    crate::geometry::spec_dist_sq(e.a, e.b),
                );
                let scale = if norm < 1 {
                    1int
                } else {
                    norm
                };
                seq![
                    (
                        ((p.0 as i64), (p.1 as i64)),
                        (
                            ((p.0 + crate::polygon::spec_div_trunc(px * 10_000, scale)) as i64),
                            ((p.1 + crate::polygon::spec_div_trunc(py * 10_000, scale)) as i64),
                        ),
                    ),
                ]
            }
        },
    }
}

/// The segments edge `eidx` of triangle `i` contributes: a segment to the
/// adjacent triangle's circumcenter, or an outward ray for a boundary
/// edge.
pub open spec fn edge_segs(tris: Seq<Triangle>, i: int, eidx: int) -> Seq<VSeg> {
    let t = tris[i];
    let e = spec_edges(t)[eidx];
    match adj_search(tris, i, e, tris.len() as int) {
        Option::Some(u) => seg_between(t, u),
        Option::None => ray_of(t, e),
    }
}

/// The segments of the first `k` edges of triangle `i`.
pub open spec fn tri_segs_upto(tris: Seq<Triangle>, i: int, k: int) -> Seq<VSeg>
    decreases k,
{
    if k <= 0 {
        Seq::empty()
    } else {
        tri_segs_upto(tris, i, k - 1) + edge_segs(tris, i, k - 1)
    }
}

/// The full Voronoi segment list of the first `k` triangles.
pub open spec fn voronoi_rows(tris: Seq<Triangle>, k: int) -> Seq<VSeg>
    decreases k,
{
    if k <= 0 {
        Seq::empty()
    } else {
        voronoi_rows(tris, k - 1) + tri_segs_upto(tris, k - 1, 3)
    }
}

/// A Voronoi diagram: a list of drawn segments, each from a circumcenter
/// toward an adjacent circumcenter or outward along a boundary edge's
/// perpendicular bisector.
pub struct Voronoi {
    lines: Vec<((i64, i64), (i64, i64))>,
}


/// Append the segments one edge of a triangle contributes: a segment to
/// the adjacent triangle's circumcenter, or a boundary ray.
fn push_edge_segs(
    lines: &mut Vec<((i64, i64), (i64, i64))>,
    t: Triangle,
    edge: Edge,
    adjacent: Option<Triangle>,
)
    requires
        tri_wf(t),
        edge.a.spec_in_bounds(),
        edge.b.spec_in_bounds(),
        match adjacent {
            Option::Some(u) => tri_wf(u),
            Option::None => true,
        },
    ensures
        final(lines)@ == old(lines)@ + match adjacent {
            Option::Some(u) => seg_between(t, u),
            Option::None => ray_of(t, edge),
        },
{
    match adjacent {
        Some(u) => {
            match (t.get_center_point(), u.get_center_point()) {
                (Some(p), Some(q)) => {
                    lines.push((p, q));
                },
                _ => {},
            }
        },
        None => {
            // Boundary edge: an outward ray from the
            // circumcenter along the edge's perpendicular
            // bisector, away from the third vertex.
            match t.get_center_point() {
                Some(p) => {
                    let third = t.get_third_vertex(edge.a, edge.b);
                    let ex = edge.b.x as i64 - edge.a.x as i64;
                    let ey = edge.b.y as i64 - edge.a.y as i64;
                    if ex != 0 || ey != 0 {
                        let mut px = -ey;
                        let mut py = ex;
                        // Compare against twice the midpoint
                        // to stay in integers.
                        let tx = 2 * third.x as i64 - (edge.a.x as i64 + edge.b.x
                            as i64);
                        let ty = 2 * third.y as i64 - (edge.a.y as i64 + edge.b.y
                            as i64);
                        proof {
                            assert(third == t.a || third == t.b || third == t.c);
                            assert(third.spec_in_bounds());
                            assert(-2_000_000 <= px <= 2_000_000);
                            assert(-2_000_000 <= py <= 2_000_000);
                            assert(-4_000_000 <= tx <= 4_000_000);
                            assert(-4_000_000 <= ty <= 4_000_000);
                            crate::geometry::lemma_product_bound2(
                                px as int,
                                tx as int,
                                2_000_000,
                                4_000_000,
                            );
                            crate::geometry::lemma_product_bound2(
                                py as int,
                                ty as int,
                                2_000_000,
                                4_000_000,
                            );
                        }
                        if px * tx + py * ty > 0 {
                            px = -px;
                            py = -py;
                        }
                        proof {
                            assert(-2_000_000 <= px <= 2_000_000 && -2_000_000 <= py
                                <= 2_000_000);
                            crate::geometry::lemma_product_bound(
                                edge.b.x - edge.a.x,
                                edge.b.x - edge.a.x,
                                2_000_000,
                            );
                            crate::geometry::lemma_product_bound(
                                edge.b.y - edge.a.y,
                                edge.b.y - edge.a.y,
                                2_000_000,
                            );
                            assert(0 <= (edge.b.x - edge.a.x) * (edge.b.x - edge.a.x)
                                && 0 <= (edge.b.y - edge.a.y) * (edge.b.y
                                - edge.a.y)) by (nonlinear_arith);
                        }
                        let len2 = crate::geometry::dist_sq(edge.a, edge.b);
                        let norm = crate::second_order_lines::isqrt(len2);
                        let scale = if norm < 1 {
                            1
                        } else {
                            norm
                        };
                        let endx = p.0 + crate::polygon::div_trunc(
                            px * 10_000,
                            scale,
                        );
                        let endy = p.1 + crate::polygon::div_trunc(
                            py * 10_000,
                            scale,
                        );
                        lines.push((p, (endx, endy)));
                    }
                },
                None => {},
            }
        },
    }
    proof {
        assert(lines@ =~= old(lines)@ + match adjacent {
            Option::Some(u) => seg_between(t, u),
            Option::None => ray_of(t, edge),
        });
    }
}

impl Voronoi {
    /// The diagram's segments.
    pub closed spec fn segments(&self) -> Seq<((i64, i64), (i64, i64))> {
        self.lines@
    }

    /// Read access to the segments.
    pub fn get_lines(&self) -> (v: &Vec<((i64, i64), (i64, i64))>)
        ensures
            v@ == self.segments(),
    {
        &self.lines
    }

    /// Build the Voronoi diagram as the dual of the Delaunay
    /// triangulation of the input points: one segment between the
    /// circumcenters of every pair of edge-adjacent triangles, and one
    /// outward ray for every boundary edge; collinear triangles, which
    /// have no circumcenter, contribute nothing.
    pub fn new(points: &Vec<Point>) -> (v: Voronoi)
        requires
            forall|i: int| 0 <= i < points@.len() ==> (#[trigger] points@[i]).spec_in_bounds(),
        ensures
            ({
                let tris = crate::delone::bowyer_all(points@, points@.len() as int).filter(
                    crate::delone::non_super_pred(),
                );
                v.segments() == voronoi_rows(tris, tris.len() as int)
            }),
    {
        let delone = Delone::new(points);
        Voronoi::from_triangles(delone.get_triangles())
    }

    /// Build the Voronoi segments from a triangle list: one segment per
    /// edge-adjacent triangle pair, one outward ray per boundary edge.
    #[verifier::rlimit(100)]
    pub fn from_triangles(triangles: &Vec<Triangle>) -> (v: Voronoi)
        requires
            forall|k: int| 0 <= k < triangles@.len() ==> tri_wf(#[trigger] triangles@[k]),
        ensures
            v.segments() == voronoi_rows(triangles@, triangles@.len() as int),
    {
        let n = triangles.len();
        let mut lines: Vec<((i64, i64), (i64, i64))> = Vec::new();
        let mut i: usize = 0;
        proof {
            assert(lines@ =~= voronoi_rows(triangles@, 0));
        }
        while i < n
            invariant
                n == triangles@.len(),
                0 <= i <= n,
                forall|k: int| 0 <= k < triangles@.len() ==> tri_wf(#[trigger] triangles@[k]),
                lines@ == voronoi_rows(triangles@, i as int),
            decreases n - i,
        {
            let t = triangles[i];
            let es = t.get_edges();
            let mut e: usize = 0;
            proof {
                assert(lines@ =~= voronoi_rows(triangles@, i as int) + tri_segs_upto(
                    triangles@,
                    i as int,
                    0,
                ));
            }
            while e < 3
                invariant
                    n == triangles@.len(),
                    es@ == spec_edges(t),
                    t == triangles@[i as int],
                    tri_wf(t),
                    0 <= i < n,
                    forall|k: int| 0 <= k < triangles@.len() ==> tri_wf(#[trigger] triangles@[k]),
                    0 <= e <= 3,
                    lines@ == voronoi_rows(triangles@, i as int) + tri_segs_upto(
                        triangles@,
                        i as int,
                        e as int,
                    ),
                decreases 3 - e,
            {
                let edge = es[e];
                proof {
                    assert(edge.a == t.a || edge.a == t.b || edge.a == t.c);
                    assert(edge.b == t.a || edge.b == t.b || edge.b == t.c);
                    assert(edge.a.spec_in_bounds() && edge.b.spec_in_bounds());
                }
                let mut adjacent: Option<Triangle> = None;
                let mut j: usize = 0;
                while j < n
                    invariant
                        n == triangles@.len(),
                        0 <= j <= n,
                        0 <= i < n,
                        forall|k: int|
                            0 <= k < triangles@.len() ==> tri_wf(#[trigger] triangles@[k]),
                        adjacent == adj_search(triangles@, i as int, edge, j as int),
                        match adjacent {
                            Some(u) => tri_wf(u),
                            None => true,
                        },
                    decreases n - j,
                {
                    if j != i {
                        let u = triangles[j];
                        let ues = u.get_edges();
                        if ues[0] == edge || ues[1] == edge || ues[2] == edge {
                            proof {
                                assert(has_edge(u, edge));
                            }
                            adjacent = Some(u);
                        } else {
                            proof {
                                assert(!has_edge(u, edge)) by {
                                    if has_edge(u, edge) {
                                        let w = choose|w: int|
                                            0 <= w < 3 && spec_edges(u)[w] == edge;
                                        assert(w == 0 || w == 1 || w == 2);
                                    }
                                }
                            }
                        }
                    }
                    j = j + 1;
                }
                push_edge_segs(&mut lines, t, edge, adjacent);
                proof {
                    assert(edge == spec_edges(t)[e as int]);
                    assert(adj_search(triangles@, i as int, edge, n as int) == adjacent);
                    assert(lines@ =~= voronoi_rows(triangles@, i as int) + tri_segs_upto(
                        triangles@,
                        i as int,
                        e as int + 1,
                    ));
                }
                e = e + 1;
            }
            proof {
                assert(lines@ =~= voronoi_rows(triangles@, i as int + 1));
            }
            i = i + 1;
        }
        Voronoi { lines }
    }
}

} // verus!
