//! Incremental Delaunay triangulation: a Bowyer-Watson construction with a
//! super-triangle, an exact signed-determinant circumcircle predicate, and
//! an executable validity check for the empty-circumcircle property.

use vstd::prelude::*;

use crate::geometry::COORD_LIMIT;
use crate::geometry::Point;
use crate::geometry::spec_cross;

verus! {

/// A triangle of the triangulation; equality of triangles is unordered
/// equality of their vertex sets.
#[derive(Clone, Copy, PartialEq, Eq, Structural, Debug)]
pub struct Triangle {
    pub a: Point,
    pub b: Point,
    pub c: Point,
}

/// The vertex set of a triangle.
pub open spec fn tri_set(t: Triangle) -> Set<Point> {
    set![t.a, t.b, t.c]
}

/// Unordered-set equality of two triangles.
pub open spec fn same_triangle(t: Triangle, u: Triangle) -> bool {
    tri_set(t) == tri_set(u)
}

/// Whether `p` is a vertex of `t`.
pub open spec fn is_vertex(t: Triangle, p: Point) -> bool {
    t.a == p || t.b == p || t.c == p
}

/// All three vertices within coordinate bounds.
pub open spec fn tri_wf(t: Triangle) -> bool {
    t.a.spec_in_bounds() && t.b.spec_in_bounds() && t.c.spec_in_bounds()
}

/// Exact unordered triangle equality.
pub fn eq_triangle(t: &Triangle, u: &Triangle) -> (r: bool)
    ensures
        r == same_triangle(*t, *u),
{
    let r = (is_vertex_of(u, t.a) && is_vertex_of(u, t.b) && is_vertex_of(u, t.c))
        && (is_vertex_of(t, u.a) && is_vertex_of(t, u.b) && is_vertex_of(t, u.c));
    proof {
        if r {
            assert(tri_set(*t) =~= tri_set(*u));
        } else {
            assert(tri_set(*t).contains(t.a) && tri_set(*t).contains(t.b) && tri_set(*t).contains(
                t.c,
            ));
            assert(tri_set(*u).contains(u.a) && tri_set(*u).contains(u.b) && tri_set(*u).contains(
                u.c,
            ));
        }
    }
    r
}

/// Whether `p` is one of `t`'s vertices.
pub fn is_vertex_of(t: &Triangle, p: Point) -> (r: bool)
    ensures
        r == is_vertex(*t, p),
{
    t.a == p || t.b == p || t.c == p
}

/// An undirected edge of a triangle, held in canonical lexicographic
/// order so that two triangles sharing an edge produce equal values.
#[derive(Clone, Copy, PartialEq, Eq, Structural, Debug)]
pub struct Edge {
    pub a: Point,
    pub b: Point,
}

/// The canonical order: `a` comes first by x, ties broken by y.
pub open spec fn edge_canonical(a: Point, b: Point) -> Edge {
    if a.x > b.x || (a.x == b.x && a.y > b.y) {
        Edge { a: b, b: a }
    } else {
        Edge { a, b }
    }
}

impl Edge {
    /// Build the canonical edge between two points.
    pub fn new(a: Point, b: Point) -> (e: Edge)
        ensures
            e == edge_canonical(a, b),
    {
        if a.x > b.x || (a.x == b.x && a.y > b.y) {
            Edge { a: b, b: a }
        } else {
            Edge { a, b }
        }
    }
}

/// The three canonical edges of a triangle.
pub open spec fn spec_edges(t: Triangle) -> Seq<Edge> {
    seq![edge_canonical(t.a, t.b), edge_canonical(t.b, t.c), edge_canonical(t.c, t.a)]
}

impl Triangle {
    /// The triangle's three canonical edges.
    pub fn get_edges(&self) -> (es: Vec<Edge>)
        ensures
            es@ == spec_edges(*self),
    {
        let mut es: Vec<Edge> = Vec::new();
        es.push(Edge::new(self.a, self.b));
        es.push(Edge::new(self.b, self.c));
        es.push(Edge::new(self.c, self.a));
        proof {
            assert(es@ =~= spec_edges(*self));
        }
        es
    }
}

/// The signed in-circumcircle determinant for counter-clockwise `a, b, c`:
/// positive exactly when `d` lies strictly inside the circle through the
/// three points.
pub open spec fn circum_det(a: Point, b: Point, c: Point, d: Point) -> int {
    let adx = a.x - d.x;
    let ady = a.y - d.y;
    let bdx = b.x - d.x;
    let bdy = b.y - d.y;
    let cdx = c.x - d.x;
    let cdy = c.y - d.y;
    (adx * adx + ady * ady) * (bdx * cdy - bdy * cdx) - (bdx * bdx + bdy * bdy) * (adx * cdy - ady
        * cdx) + (cdx * cdx + cdy * cdy) * (adx * bdy - ady * bdx)
}

/// The circumcircle predicate with the vertex winding normalized to
/// counter-clockwise first.
pub open spec fn spec_in_circumcircle(a: Point, b: Point, c: Point, d: Point) -> bool {
    if spec_cross(a, b, c) > 0 {
        circum_det(a, b, c, d) > 0
    } else {
        circum_det(a, c, b, d) > 0
    }
}

/// The exact in-circumcircle test.
pub fn in_circumcircle(a: Point, b: Point, c: Point, d: Point) -> (r: bool)
    requires
        a.spec_in_bounds(),
        b.spec_in_bounds(),
        c.spec_in_bounds(),
        d.spec_in_bounds(),
    ensures
        r == spec_in_circumcircle(a, b, c, d),
{
    let ccw = crate::geometry::cross_product(a, b, c) > 0;
    let (b2, c2) = if ccw {
        (b, c)
    } else {
        (c, b)
    };
    circum_det_pos(a, b2, c2, d)
}

/// Exact sign test of the in-circumcircle determinant.
fn circum_det_pos(a: Point, b: Point, c: Point, d: Point) -> (r: bool)
    requires
        a.spec_in_bounds(),
        b.spec_in_bounds(),
        c.spec_in_bounds(),
        d.spec_in_bounds(),
    ensures
        r == (circum_det(a, b, c, d) > 0),
{
    let adx = a.x as i128 - d.x as i128;
    let ady = a.y as i128 - d.y as i128;
    let bdx = b.x as i128 - d.x as i128;
    let bdy = b.y as i128 - d.y as i128;
    let cdx = c.x as i128 - d.x as i128;
    let cdy = c.y as i128 - d.y as i128;
    proof {
        let m = 2 * COORD_LIMIT as int;
        crate::geometry::lemma_product_bound(adx as int, adx as int, m);
        crate::geometry::lemma_product_bound(ady as int, ady as int, m);
        crate::geometry::lemma_product_bound(bdx as int, bdx as int, m);
        crate::geometry::lemma_product_bound(bdy as int, bdy as int, m);
        crate::geometry::lemma_product_bound(cdx as int, cdx as int, m);
        crate::geometry::lemma_product_bound(cdy as int, cdy as int, m);
        crate::geometry::lemma_product_bound(bdx as int, cdy as int, m);
        crate::geometry::lemma_product_bound(bdy as int, cdx as int, m);
        crate::geometry::lemma_product_bound(adx as int, cdy as int, m);
        crate::geometry::lemma_product_bound(ady as int, cdx as int, m);
        crate::geometry::lemma_product_bound(adx as int, bdy as int, m);
        crate::geometry::lemma_product_bound(ady as int, bdx as int, m);
    }
    let la = adx * adx + ady * ady;
    let lb = bdx * bdx + bdy * bdy;
    let lc = cdx * cdx + cdy * cdy;
    let xa = bdx * cdy - bdy * cdx;
    let xb = adx * cdy - ady * cdx;
    let xc = adx * bdy - ady * bdx;
    proof {
        crate::geometry::lemma_product_bound2(la as int, xa as int, 0x8_0000_0000_0000, 0x8_0000_0000_0000);
        crate::geometry::lemma_product_bound2(lb as int, xb as int, 0x8_0000_0000_0000, 0x8_0000_0000_0000);
        crate::geometry::lemma_product_bound2(lc as int, xc as int, 0x8_0000_0000_0000, 0x8_0000_0000_0000);
    }
    la * xa - lb * xb + lc * xc > 0
}

/// The three vertices of the oversized super-triangle every insertion
/// starts from.
pub open spec fn super_a() -> Point {
    Point { x: -300i32, y: 0 }
}

pub open spec fn super_b() -> Point {
    Point { x: 1000i32, y: 0 }
}

pub open spec fn super_c() -> Point {
    Point { x: 650i32, y: 2000 }
}

/// Whether `p` lies strictly inside `t`'s circumcircle.
pub open spec fn tri_bad(t: Triangle, p: Point) -> bool {
    spec_in_circumcircle(t.a, t.b, t.c, p)
}

/// The filter for triangles whose circumcircle contains `p`.
pub open spec fn bad_pred(p: Point) -> spec_fn(Triangle) -> bool {
    |t: Triangle| tri_bad(t, p)
}

/// The cavity: the triangles of the list whose circumcircle contains `p`,
/// in list order.
pub open spec fn bad_of(tris: Seq<Triangle>, p: Point) -> Seq<Triangle> {
    tris.filter(bad_pred(p))
}

/// Whether `t` equals (as a vertex set) some cavity triangle.
pub open spec fn matches_bad(tris: Seq<Triangle>, p: Point, t: Triangle) -> bool {
    exists|k: int|
        0 <= k < bad_of(tris, p).len() && #[trigger] same_triangle(t, bad_of(tris, p)[k])
}

/// The filter for triangles that survive carving the cavity of `p`.
pub open spec fn keep_pred(tris: Seq<Triangle>, p: Point) -> spec_fn(Triangle) -> bool {
    |t: Triangle| !matches_bad(tris, p, t)
}

/// The triangles kept after carving the cavity of `p`.
pub open spec fn kept_of(tris: Seq<Triangle>, p: Point) -> Seq<Triangle> {
    tris.filter(keep_pred(tris, p))
}

/// A count saturates just below the counter's capacity.
pub open spec fn count_inc(c: u32) -> u32 {
    if c < 0xffff_ffffu32 {
        (c + 1) as u32
    } else {
        c
    }
}

/// Count one more occurrence of edge `e` in a tally kept in first-seen
/// order.
pub open spec fn bump(counts: Seq<(Edge, u32)>, e: Edge) -> Seq<(Edge, u32)>
    decreases counts.len(),
{
    if counts.len() == 0 {
        seq![(e, 1u32)]
    } else if counts[0].0 == e {
        seq![(e, count_inc(counts[0].1))] + counts.skip(1)
    } else {
        seq![counts[0]] + bump(counts.skip(1), e)
    }
}

/// Tally the three canonical edges of a cavity triangle.
pub open spec fn bump_tri(counts: Seq<(Edge, u32)>, t: Triangle) -> Seq<(Edge, u32)> {
    bump(
        bump(bump(counts, edge_canonical(t.a, t.b)), edge_canonical(t.b, t.c)),
        edge_canonical(t.c, t.a),
    )
}

/// The cavity-edge tally over the first `k` triangles of the list.
pub open spec fn tally_upto(tris: Seq<Triangle>, p: Point, k: int) -> Seq<(Edge, u32)>
    decreases k,
{
    if k <= 0 {
        Seq::empty()
    } else if tri_bad(tris[k - 1], p) {
        bump_tri(tally_upto(tris, p, k - 1), tris[k - 1])
    } else {
        tally_upto(tris, p, k - 1)
    }
}

/// The new triangles connecting `p` to every cavity-boundary edge: the
/// edges of exactly one cavity triangle, in tally order.
pub open spec fn cavity_tris(counts: Seq<(Edge, u32)>, p: Point, k: int) -> Seq<Triangle>
    decreases k,
{
    if k <= 0 {
        Seq::empty()
    } else {
        cavity_tris(counts, p, k - 1) + if counts[k - 1].1 == 1 {
            seq![Triangle { a: counts[k - 1].0.a, b: counts[k - 1].0.b, c: p }]
        } else {
            Seq::empty()
        }
    }
}

/// One Bowyer-Watson insertion: exactly the triangles whose circumcircle
/// contains `p` (and their vertex-set duplicates) are removed, and one new
/// triangle joins `p` to each single-count cavity edge.
pub open spec fn bowyer_step(tris: Seq<Triangle>, p: Point) -> Seq<Triangle> {
    let tally = tally_upto(tris, p, tris.len() as int);
    kept_of(tris, p) + cavity_tris(tally, p, tally.len() as int)
}

/// The triangulation after inserting the first `k` points into the
/// super-triangle.
pub open spec fn bowyer_all(points: Seq<Point>, k: int) -> Seq<Triangle>
    decreases k,
{
    if k <= 0 {
        seq![Triangle { a: super_a(), b: super_b(), c: super_c() }]
    } else {
        bowyer_step(bowyer_all(points, k - 1), points[k - 1])
    }
}

/// The filter for triangles sharing no vertex with the super-triangle.
pub open spec fn non_super_pred() -> spec_fn(Triangle) -> bool {
    |t: Triangle|
        !is_vertex(t, super_a()) && !is_vertex(t, super_b()) && !is_vertex(t, super_c())
}

/// An incremental Delaunay triangulation.
pub struct Delone {
    triangles: Vec<Triangle>,
}

impl Delone {
    /// The current triangle list.
    pub closed spec fn tris(&self) -> Seq<Triangle> {
        self.triangles@
    }

    pub open spec fn wf(&self) -> bool {
        forall|i: int| 0 <= i < self.tris().len() ==> tri_wf(#[trigger] self.tris()[i])
    }

    /// Read access to the triangle list.
    pub fn get_triangles(&self) -> (v: &Vec<Triangle>)
        ensures
            v@ == self.tris(),
    {
        &self.triangles
    }

    /// Bowyer-Watson construction: every input point is inserted into an
    /// oversized super-triangle, then every triangle sharing a vertex with
    /// the super-triangle is removed.
    pub fn new(points: &Vec<Point>) -> (d: Delone)
        requires
            forall|i: int| 0 <= i < points@.len() ==> (#[trigger] points@[i]).spec_in_bounds(),
        ensures
            d.wf(),
            d.tris() == bowyer_all(points@, points@.len() as int).filter(non_super_pred()),
            forall|i: int|
                0 <= i < d.tris().len() ==> !is_vertex(#[trigger] d.tris()[i], super_a())
                    && !is_vertex(d.tris()[i], super_b()) && !is_vertex(d.tris()[i], super_c()),
    {
        let sa = Point { x: -300i32, y: 0 };
        let sb = Point { x: 1000i32, y: 0 };
        let sc = Point { x: 650i32, y: 2000 };
        let mut d = Delone { triangles: Vec::new() };
        d.triangles.push(Triangle { a: sa, b: sb, c: sc });
        proof {
            assert(d.tris() =~= bowyer_all(points@, 0));
        }
        let n = points.len();
        let mut i: usize = 0;
        while i < n
            invariant
                d.wf(),
                n == points@.len(),
                0 <= i <= n,
                d.tris() == bowyer_all(points@, i as int),
                forall|k: int|
                    0 <= k < points@.len() ==> (#[trigger] points@[k]).spec_in_bounds(),
            decreases n - i,
        {
            let p = points[i];
            d.add_point(p);
            i = i + 1;
        }
        // Drop every triangle that still shares a vertex with the
        // super-triangle.
        let ghost whole = d.tris();
        let mut kept: Vec<Triangle> = Vec::new();
        let m = d.triangles.len();
        let mut j: usize = 0;
        proof {
            reveal_with_fuel(Seq::filter, 1);
            assert(whole.take(0).filter(non_super_pred()) =~= Seq::<Triangle>::empty());
        }
        while j < m
            invariant
                d.wf(),
                whole == d.tris(),
                m == whole.len(),
                0 <= j <= m,
                sa == super_a(),
                sb == super_b(),
                sc == super_c(),
                kept@ == whole.take(j as int).filter(non_super_pred()),
                forall|k: int| 0 <= k < kept@.len() ==> tri_wf(#[trigger] kept@[k]),
            decreases m - j,
        {
            let t = d.triangles[j];
            if !is_vertex_of(&t, sa) && !is_vertex_of(&t, sb) && !is_vertex_of(&t, sc) {
                kept.push(t);
            }
            proof {
                assert(whole.take(j as int + 1).drop_last() =~= whole.take(j as int));
                assert(whole.take(j as int + 1).last() == t);
                reveal_with_fuel(Seq::filter, 2);
                assert(kept@ =~= whole.take(j as int + 1).filter(non_super_pred()));
            }
            j = j + 1;
        }
        proof {
            assert(whole.take(m as int) =~= whole);
            broadcast use vstd::seq_lib::group_filter_ensures;

            assert forall|k: int|
                0 <= k < kept@.len() implies !is_vertex(#[trigger] kept@[k], super_a())
                && !is_vertex(kept@[k], super_b()) && !is_vertex(kept@[k], super_c()) by {
                assert(whole.filter(non_super_pred()).contains(kept@[k]));
                assert(non_super_pred()(kept@[k]));
            }
        }
        Delone { triangles: kept }
    }

    /// Insert one point by the Bowyer-Watson step: remove every triangle
    /// whose circumcircle contains it, and re-triangulate the cavity by
    /// connecting the point to every boundary edge (an edge of exactly one
    /// removed triangle).
    pub fn add_point(&mut self, point: Point)
        requires
            old(self).wf(),
            point.spec_in_bounds(),
        ensures
            final(self).wf(),
            final(self).tris() == bowyer_step(old(self).tris(), point),
    {
        let ghost tris0 = self.tris();
        let n = self.triangles.len();
        let mut bad: Vec<Triangle> = Vec::new();
        let mut edge_counts: Vec<(Edge, u32)> = Vec::new();
        let mut i: usize = 0;
        proof {
            reveal_with_fuel(Seq::filter, 1);
            assert(tris0.take(0).filter(bad_pred(point)) =~= Seq::<Triangle>::empty());
        }
        while i < n
            invariant
                self.wf(),
                point.spec_in_bounds(),
                tris0 == self.tris(),
                n == tris0.len(),
                0 <= i <= n,
                bad@ == tris0.take(i as int).filter(bad_pred(point)),
                edge_counts@ == tally_upto(tris0, point, i as int),
                forall|k: int| 0 <= k < bad@.len() ==> tri_wf(#[trigger] bad@[k]),
                forall|k: int|
                    0 <= k < edge_counts@.len() ==> (#[trigger] edge_counts@[k]).0.a.spec_in_bounds()
                        && edge_counts@[k].0.b.spec_in_bounds(),
            decreases n - i,
        {
            let t = self.triangles[i];
            proof {
                assert(tris0.take(i as int + 1).drop_last() =~= tris0.take(i as int));
                assert(tris0.take(i as int + 1).last() == t);
            }
            if in_circumcircle(t.a, t.b, t.c, point) {
                bad.push(t);
                let es = t.get_edges();
                record_edge(&mut edge_counts, es[0]);
                record_edge(&mut edge_counts, es[1]);
                record_edge(&mut edge_counts, es[2]);
                proof {
                    reveal_with_fuel(Seq::filter, 2);
                    assert(bad@ =~= tris0.take(i as int + 1).filter(bad_pred(point)));
                }
            } else {
                proof {
                    reveal_with_fuel(Seq::filter, 2);
                    assert(bad@ =~= tris0.take(i as int + 1).filter(bad_pred(point)));
                }
            }
            i = i + 1;
        }
        proof {
            assert(tris0.take(n as int) =~= tris0);
        }
        // Keep only the triangles not matching a cavity triangle.
        let mut kept: Vec<Triangle> = Vec::new();
        let mut j: usize = 0;
        proof {
            reveal_with_fuel(Seq::filter, 1);
            assert(tris0.take(0).filter(keep_pred(tris0, point)) =~= Seq::<Triangle>::empty());
        }
        while j < n
            invariant
                self.wf(),
                point.spec_in_bounds(),
                tris0 == self.tris(),
                n == tris0.len(),
                0 <= j <= n,
                bad@ == bad_of(tris0, point),
                kept@ == tris0.take(j as int).filter(keep_pred(tris0, point)),
                forall|k: int| 0 <= k < kept@.len() ==> tri_wf(#[trigger] kept@[k]),
            decreases n - j,
        {
            let t = self.triangles[j];
            let mut in_bad = false;
            let mut b: usize = 0;
            while b < bad.len()
                invariant
                    bad@ == bad_of(tris0, point),
                    0 <= b <= bad@.len(),
                    in_bad == exists|k: int|
                        0 <= k < b && #[trigger] same_triangle(t, bad@[k]),
                decreases bad@.len() - b,
            {
                if eq_triangle(&t, &bad[b]) {
                    in_bad = true;
                }
                b = b + 1;
            }
            proof {
                assert(in_bad == matches_bad(tris0, point, t));
                assert(tris0.take(j as int + 1).drop_last() =~= tris0.take(j as int));
                assert(tris0.take(j as int + 1).last() == t);
            }
            if !in_bad {
                kept.push(t);
            }
            proof {
                reveal_with_fuel(Seq::filter, 2);
                assert(kept@ =~= tris0.take(j as int + 1).filter(keep_pred(tris0, point)));
            }
            j = j + 1;
        }
        proof {
            assert(tris0.take(n as int) =~= tris0);
        }
        // Connect the point to every cavity-boundary edge.
        let ghost tally = edge_counts@;
        let mut c: usize = 0;
        while c < edge_counts.len()
            invariant
                point.spec_in_bounds(),
                tally == edge_counts@,
                forall|k: int|
                    0 <= k < edge_counts@.len() ==> (#[trigger] edge_counts@[k]).0.a.spec_in_bounds()
                        && edge_counts@[k].0.b.spec_in_bounds(),
                forall|k: int| 0 <= k < kept@.len() ==> tri_wf(#[trigger] kept@[k]),
                0 <= c <= edge_counts@.len(),
                kept@ == kept_of(tris0, point) + cavity_tris(tally, point, c as int),
            decreases edge_counts@.len() - c,
        {
            let (edge, times) = edge_counts[c];
            if times == 1 {
                kept.push(Triangle { a: edge.a, b: edge.b, c: point });
            }
            proof {
                assert(kept@ =~= kept_of(tris0, point) + cavity_tris(
                    tally,
                    point,
                    c as int + 1,
                ));
            }
            c = c + 1;
        }
        self.triangles = kept;
        proof {
            assert(self.tris() =~= bowyer_step(tris0, point));
        }
    }
}

/// Count one more occurrence of a cavity edge in the tally.
fn record_edge(counts: &mut Vec<(Edge, u32)>, e: Edge)
    requires
        e.a.spec_in_bounds(),
        e.b.spec_in_bounds(),
        forall|k: int|
            0 <= k < old(counts)@.len() ==> (#[trigger] old(counts)@[k]).0.a.spec_in_bounds()
                && old(counts)@[k].0.b.spec_in_bounds(),
    ensures
        final(counts)@ == bump(old(counts)@, e),
        forall|k: int|
            0 <= k < final(counts)@.len() ==> (#[trigger] final(counts)@[k]).0.a.spec_in_bounds()
                && final(counts)@[k].0.b.spec_in_bounds(),
{
    let n = counts.len();
    let mut i: usize = 0;
    while i < n
        invariant
            counts@ == old(counts)@,
            n == counts@.len(),
            0 <= i <= n,
            e.a.spec_in_bounds(),
            e.b.spec_in_bounds(),
            forall|k: int| 0 <= k < i ==> (#[trigger] counts@[k]).0 != e,
            forall|k: int|
                0 <= k < counts@.len() ==> (#[trigger] counts@[k]).0.a.spec_in_bounds()
                    && counts@[k].0.b.spec_in_bounds(),
        decreases n - i,
    {
        if counts[i].0 == e {
            proof {
                lemma_bump_found(counts@, e, i as int);
            }
            let times = counts[i].1;
            if times < 0xffff_ffff {
                counts.set(i, (e, times + 1));
            } else {
                let ghost pre = counts@;
                proof {
                    assert(pre.update(i as int, (e, count_inc(times))) =~= pre);
                }
            }
            return ;
        }
        i = i + 1;
    }
    proof {
        lemma_bump_absent(counts@, e);
    }
    counts.push((e, 1));
}

/// When the edge already occurs, at first position `i`, bumping updates
/// that entry in place.
proof fn lemma_bump_found(counts: Seq<(Edge, u32)>, e: Edge, i: int)
    requires
        0 <= i < counts.len(),
        counts[i].0 == e,
        forall|k: int| 0 <= k < i ==> (#[trigger] counts[k]).0 != e,
    ensures
        bump(counts, e) == counts.update(i, (e, count_inc(counts[i].1))),
    decreases i,
{
    if i == 0 {
        assert(bump(counts, e) =~= counts.update(0, (e, count_inc(counts[0].1))));
    } else {
        assert forall|k: int| 0 <= k < i - 1 implies (#[trigger] counts.skip(1)[k]).0 != e by {
            assert(counts.skip(1)[k] == counts[k + 1]);
        }
        lemma_bump_found(counts.skip(1), e, i - 1);
        assert(bump(counts, e) =~= counts.update(i, (e, count_inc(counts[i].1))));
    }
}

/// When the edge is absent, bumping appends a fresh count of one.
proof fn lemma_bump_absent(counts: Seq<(Edge, u32)>, e: Edge)
    requires
        forall|k: int| 0 <= k < counts.len() ==> (#[trigger] counts[k]).0 != e,
    ensures
        bump(counts, e) == counts.push((e, 1u32)),
    decreases counts.len(),
{
    if counts.len() == 0 {
        assert(bump(counts, e) =~= counts.push((e, 1u32)));
    } else {
        assert forall|k: int|
            0 <= k < counts.skip(1).len() implies (#[trigger] counts.skip(1)[k]).0 != e by {
            assert(counts.skip(1)[k] == counts[k + 1]);
        }
        lemma_bump_absent(counts.skip(1), e);
        assert(bump(counts, e) =~= counts.push((e, 1u32)));
    }
}

/// The empty-circumcircle property: no triangle's circumcircle strictly
/// contains an input point that is not one of its vertices.
pub open spec fn circumcircles_empty(tris: Seq<Triangle>, points: Seq<Point>) -> bool {
    forall|i: int, j: int|
        0 <= i < tris.len() && 0 <= j < points.len() && !is_vertex(
            #[trigger] tris[i],
            #[trigger] points[j],
        ) ==> !spec_in_circumcircle(tris[i].a, tris[i].b, tris[i].c, points[j])
}

/// How many of the first `k` triangles have `e` among their canonical
/// edges.
pub open spec fn edge_occurrences(tris: Seq<Triangle>, e: Edge, k: int) -> int
    decreases k,
{
    if k <= 0 {
        0
    } else {
        edge_occurrences(tris, e, k - 1) + if spec_edges(tris[k - 1]).contains(e) {
            1int
        } else {
            0int
        }
    }
}

/// The edge-sharing property: every edge of the triangulation belongs to
/// at most two triangles.
pub open spec fn edges_shared_at_most_twice(tris: Seq<Triangle>) -> bool {
    forall|i: int, j: int|
        0 <= i < tris.len() && 0 <= j < 3 ==> edge_occurrences(
            tris,
            #[trigger] spec_edges(tris[i])[j],
            tris.len() as int,
        ) <= 2
}

/// How many triangles of the list carry `e` as a canonical edge.
fn count_edge(tris: &Vec<Triangle>, e: Edge) -> (c: u64)
    requires
        tris@.len() < 0x1_0000_0000,
    ensures
        c == edge_occurrences(tris@, e, tris@.len() as int),
{
    let n = tris.len();
    let mut c: u64 = 0;
    let mut k: usize = 0;
    while k < n
        invariant
            n == tris@.len() < 0x1_0000_0000,
            0 <= k <= n,
            c <= k,
            c == edge_occurrences(tris@, e, k as int),
        decreases n - k,
    {
        let es = tris[k].get_edges();
        if es[0] == e || es[1] == e || es[2] == e {
            proof {
                assert(spec_edges(tris@[k as int]).contains(e));
            }
            c = c + 1;
        } else {
            proof {
                assert(!spec_edges(tris@[k as int]).contains(e)) by {
                    if spec_edges(tris@[k as int]).contains(e) {
                        let w = choose|w: int|
                            0 <= w < 3 && spec_edges(tris@[k as int])[w] == e;
                        assert(w == 0 || w == 1 || w == 2);
                    }
                }
            }
        }
        k = k + 1;
    }
    c
}

/// The triangulation validity check: true exactly when no triangle's
/// circumcircle strictly contains a non-vertex input point and every edge
/// belongs to at most two triangles.
pub fn is_valid_triangulation(tris: &Vec<Triangle>, points: &Vec<Point>) -> (r: bool)
    requires
        forall|i: int| 0 <= i < tris@.len() ==> tri_wf(#[trigger] tris@[i]),
        forall|i: int| 0 <= i < points@.len() ==> (#[trigger] points@[i]).spec_in_bounds(),
        tris@.len() < 0x1_0000_0000,
    ensures
        r == (circumcircles_empty(tris@, points@) && edges_shared_at_most_twice(tris@)),
{
    let n = tris.len();
    let m = points.len();
    let mut i: usize = 0;
    while i < n
        invariant
            n == tris@.len(),
            m == points@.len(),
            0 <= i <= n,
            forall|k: int| 0 <= k < tris@.len() ==> tri_wf(#[trigger] tris@[k]),
            forall|k: int| 0 <= k < points@.len() ==> (#[trigger] points@[k]).spec_in_bounds(),
            forall|k: int, j: int|
                0 <= k < i && 0 <= j < points@.len() && !is_vertex(
                    #[trigger] tris@[k],
                    #[trigger] points@[j],
                ) ==> !spec_in_circumcircle(tris@[k].a, tris@[k].b, tris@[k].c, points@[j]),
        decreases n - i,
    {
        let t = tris[i];
        let mut j: usize = 0;
        while j < m
            invariant
                m == points@.len(),
                0 <= i < tris@.len(),
                t == tris@[i as int],
                tri_wf(t),
                forall|k: int| 0 <= k < points@.len() ==> (#[trigger] points@[k]).spec_in_bounds(),
                0 <= j <= m,
                forall|k: int|
                    0 <= k < j && !is_vertex(t, #[trigger] points@[k])
                        ==> !spec_in_circumcircle(t.a, t.b, t.c, points@[k]),
            decreases m - j,
        {
            let p = points[j];
            if !is_vertex_of(&t, p) && in_circumcircle(t.a, t.b, t.c, p) {
                proof {
                    assert(!circumcircles_empty(tris@, points@));
                }
                return false;
            }
            j = j + 1;
        }
        i = i + 1;
    }
    let mut i2: usize = 0;
    while i2 < n
        invariant
            n == tris@.len() < 0x1_0000_0000,
            0 <= i2 <= n,
            forall|k: int, j: int|
                0 <= k < i2 && 0 <= j < 3 ==> edge_occurrences(
                    tris@,
                    #[trigger] spec_edges(tris@[k])[j],
                    tris@.len() as int,
                ) <= 2,
        decreases n - i2,
    {
        let es = tris[i2].get_edges();
        let c0 = count_edge(tris, es[0]);
        let c1 = count_edge(tris, es[1]);
        let c2 = count_edge(tris, es[2]);
        if c0 > 2 || c1 > 2 || c2 > 2 {
            proof {
                assert(!edges_shared_at_most_twice(tris@));
            }
            return false;
        }
        proof {
            assert forall|j: int| 0 <= j < 3 implies edge_occurrences(
                tris@,
                #[trigger] spec_edges(tris@[i2 as int])[j],
                tris@.len() as int,
            ) <= 2 by {
                assert(j == 0 || j == 1 || j == 2);
            }
        }
        i2 = i2 + 1;
    }
    true
}

} // verus!
