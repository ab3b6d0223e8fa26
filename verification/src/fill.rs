//! The scanline fill algorithms: the ordered-edge-list fill recomputes the
//! active edges on every scanline, while the active-edge-list fill carries a
//! persistent active set and advances each edge's intersection
//! incrementally.  Both produce exactly the rows described by `fill_rows`,
//! so their outputs agree pixel for pixel.

use vstd::prelude::*;
use vstd::multiset::Multiset;
use vstd::relations::sorted_by;
use vstd::seq_lib::lemma_multiset_commutative;
use vstd::seq_lib::lemma_sorted_unique;

use crate::gen::PixelSource;
use crate::geometry::Point;
use crate::lines::black_at;
use crate::pixel::Pixel;
use crate::polygon::poly_wf;

verus! {

/// One non-horizontal polygon side, keyed by its lower endpoint: the edge
/// spans scanlines `ymin .. ymax`, starts at `xmin`, and shifts by
/// `dx / (ymax - ymin)` per scanline.
#[derive(Clone, Copy, PartialEq, Eq, Structural, Debug)]
pub struct ScanEdge {
    pub ymin: i64,
    pub ymax: i64,
    pub xmin: i64,
    pub dx: i64,
}

/// Bounds on an edge built from in-bounds vertices.
pub open spec fn edge_wf(e: ScanEdge) -> bool {
    &&& -1_000_000 <= e.ymin < e.ymax <= 1_000_000
    &&& -1_000_000 <= e.xmin <= 1_000_000
    &&& -2_000_000 <= e.dx <= 2_000_000
}

/// The scan edges of the first `k` polygon sides, skipping horizontal
/// sides.
pub open spec fn scan_edges(pts: Seq<Point>, k: int) -> Seq<ScanEdge>
    decreases k,
{
    if k <= 0 {
        Seq::empty()
    } else {
        let a = pts[k - 1];
        let b = crate::polygon::next_vertex(pts, k - 1);
        scan_edges(pts, k - 1) + if a.y == b.y {
            Seq::empty()
        } else {
            let (lo, hi) = if a.y < b.y {
                (a, b)
            } else {
                (b, a)
            };
            seq![
                ScanEdge {
                    ymin: lo.y as i64,
                    ymax: hi.y as i64,
                    xmin: lo.x as i64,
                    dx: (hi.x - lo.x) as i64,
                },
            ]
        }
    }
}

/// The intersection numerator of edge `e` at scanline `y`, over the
/// denominator `ymax - ymin`.
pub open spec fn xnum(e: ScanEdge, y: int) -> int {
    e.xmin * (e.ymax - e.ymin) + (y - e.ymin) * e.dx
}

/// The intersection of edge `e` with scanline `y`, rounded to the nearest
/// pixel column.
pub open spec fn rx(e: ScanEdge, y: int) -> i64 {
    crate::geometry::spec_div_round(xnum(e, y), e.ymax - e.ymin) as i64
}

/// Whether edge `e` spans scanline `y`; the span is closed at both ends,
/// so the top vertex row is filled too.
pub open spec fn edge_active(e: ScanEdge, y: int) -> bool {
    e.ymin <= y <= e.ymax
}

/// The edges among the first `k` that are active at scanline `y`, in edge
/// order.
pub open spec fn active_seq(edges: Seq<ScanEdge>, y: int, k: int) -> Seq<ScanEdge>
    decreases k,
{
    if k <= 0 {
        Seq::empty()
    } else {
        active_seq(edges, y, k - 1) + if edge_active(edges[k - 1], y) {
            seq![edges[k - 1]]
        } else {
            Seq::empty()
        }
    }
}

/// The rounded intersections of the active edges with scanline `y`, in edge
/// order.
pub open spec fn xs_of(edges: Seq<ScanEdge>, y: int) -> Seq<i64> {
    active_seq(edges, y, edges.len() as int).map_values(|e: ScanEdge| rx(e, y))
}

/// The ascending order on intersection columns.
pub open spec fn col_order() -> spec_fn(i64, i64) -> bool {
    |a: i64, b: i64| a <= b
}

/// The black pixels of the inclusive span `x0 ..= x1` on scanline `y`.
pub open spec fn span_pixels(x0: int, x1: int, y: int) -> Seq<Pixel>
    decreases x1 + 1 - x0,
{
    if x0 > x1 {
        Seq::empty()
    } else {
        seq![black_at(x0, y)] + span_pixels(x0 + 1, x1, y)
    }
}

/// The pixels filled between successive pairs of sorted intersections.
pub open spec fn pair_spans(xs: Seq<i64>, y: int) -> Seq<Pixel>
    decreases xs.len(),
{
    if xs.len() < 2 {
        Seq::empty()
    } else {
        span_pixels(xs[0] as int, xs[1] as int, y) + pair_spans(xs.skip(2), y)
    }
}

/// The filled pixels of one scanline: sort the active intersections and
/// fill between successive pairs.
pub open spec fn scanrow(edges: Seq<ScanEdge>, y: int) -> Seq<Pixel> {
    pair_spans(xs_of(edges, y).sort_by(col_order()), y)
}

/// The batch sequence of a scanline fill: one row per scanline from `y` to
/// `ymax` inclusive.
pub open spec fn fill_rows(edges: Seq<ScanEdge>, y: int, ymax: int) -> Seq<Seq<Pixel>>
    decreases ymax + 1 - y,
{
    if y > ymax {
        Seq::empty()
    } else {
        seq![scanrow(edges, y)] + fill_rows(edges, y + 1, ymax)
    }
}

/// Insert `x` into an ascending vector, keeping it ascending.
fn sorted_insert(v: &mut Vec<i64>, x: i64)
    requires
        sorted_by(old(v)@, col_order()),
        old(v)@.len() < 100_000,
    ensures
        sorted_by(final(v)@, col_order()),
        final(v)@.to_multiset() == old(v)@.to_multiset().insert(x),
        final(v)@.len() == old(v)@.len() + 1,
{
    let ghost leq = col_order();
    let n = v.len();
    let mut p: usize = 0;
    while p < n && v[p] < x
        invariant
            n == v@.len(),
            0 <= p <= n,
            forall|m: int| 0 <= m < p ==> #[trigger] v@[m] < x,
        decreases n - p,
    {
        p = p + 1;
    }
    let ghost pre = v@;
    v.insert(p, x);
    proof {
        broadcast use vstd::seq_lib::group_to_multiset_ensures;

        assert(v@ =~= pre.take(p as int) + seq![x] + pre.skip(p as int));
        assert forall|a: int, b: int| 0 <= a < b < v@.len() implies leq(v@[a], v@[b]) by {
            if a < p && b > p {
                assert(leq(pre[a], pre[b - 1]));
            } else if a == p {
                assert(p < pre.len() ==> !(pre[p as int] < x));
                assert(v@[b] == pre[b - 1]);
                if b - 1 > p {
                    assert(leq(pre[p as int], pre[b - 1]));
                }
            } else if b == p {
                assert(v@[a] == pre[a] && pre[a] < x);
            } else if a < p && b < p {
                assert(leq(pre[a], pre[b]));
            } else if a > p && b > p {
                assert(leq(pre[a - 1], pre[b - 1]));
            }
        }
        assert(sorted_by(v@, leq));
        let left = pre.take(p as int) + seq![x];
        let right = pre.skip(p as int);
        lemma_multiset_commutative(left, right);
        lemma_multiset_commutative(pre.take(p as int), seq![x]);
        assert(seq![x] =~= Seq::<i64>::empty().push(x));
        assert(Seq::<i64>::empty().to_multiset() =~= Multiset::empty());
        assert(seq![x].to_multiset() =~= Multiset::empty().insert(x));
        lemma_multiset_commutative(pre.take(p as int), pre.skip(p as int));
        assert(pre.take(p as int) + pre.skip(p as int) =~= pre);
        assert(v@.to_multiset() =~= pre.to_multiset().insert(x));
    }
}

/// Sort intersection columns ascending; the result is exactly the
/// specification-level sort.
fn sort_columns(xs: Vec<i64>) -> (out: Vec<i64>)
    requires
        xs@.len() < 100_000,
    ensures
        out@ == xs@.sort_by(col_order()),
        out@.len() == xs@.len(),
{
    let ghost leq = col_order();
    let n = xs.len();
    let mut out: Vec<i64> = Vec::new();
    proof {
        broadcast use vstd::seq_lib::group_to_multiset_ensures;

        assert(xs@.take(0) =~= Seq::<i64>::empty());
        assert(out@.to_multiset() =~= xs@.take(0).to_multiset());
    }
    let mut i: usize = 0;
    while i < n
        invariant
            n == xs@.len() < 100_000,
            0 <= i <= n,
            out@.len() == i,
            sorted_by(out@, col_order()),
            out@.to_multiset() == xs@.take(i as int).to_multiset(),
        decreases n - i,
    {
        let x = xs[i];
        proof {
            broadcast use vstd::seq_lib::group_to_multiset_ensures;

            assert(xs@.take(i as int + 1) =~= xs@.take(i as int).push(x));
        }
        sorted_insert(&mut out, x);
        i = i + 1;
    }
    proof {
        assert(xs@.take(n as int) =~= xs@);
        assert(vstd::relations::total_ordering(leq)) by {
            assert forall|a: i64, b: i64| #[trigger] leq(a, b) || #[trigger] leq(b, a) by {}
        }
        xs@.lemma_sort_by_ensures(leq);
        lemma_sorted_unique(out@, xs@.sort_by(leq), leq);
    }
    out
}

/// Fill the spans between successive pairs of ascending intersections on
/// scanline `y`.
fn fill_pairs(xs: &Vec<i64>, y: i64) -> (row: Vec<Pixel>)
    requires
        -2_000_000 <= y <= 2_000_000,
        forall|j: int| 0 <= j < xs@.len() ==> -8_000_000 <= #[trigger] xs@[j] <= 8_000_000,
    ensures
        row@ == pair_spans(xs@, y as int),
{
    let mut row: Vec<Pixel> = Vec::new();
    let n = xs.len();
    proof {
        assert(xs@.skip(0) =~= xs@);
    }
    let mut i: usize = 0;
    while i + 1 < n
        invariant
            n == xs@.len(),
            -2_000_000 <= y <= 2_000_000,
            forall|j: int| 0 <= j < xs@.len() ==> -8_000_000 <= #[trigger] xs@[j] <= 8_000_000,
            0 <= i <= n,
            i % 2 == 0,
            row@ + pair_spans(xs@.skip(i as int), y as int) == pair_spans(xs@, y as int),
        decreases n - i,
    {
        let x0 = xs[i];
        let x1 = xs[i + 1];
        let ghost rem = xs@.skip(i as int);
        proof {
            assert(rem[0] == xs@[i as int] && rem[1] == xs@[i as int + 1]);
            assert(rem.skip(2) =~= xs@.skip(i as int + 2));
            assert(pair_spans(rem, y as int) == span_pixels(x0 as int, x1 as int, y as int)
                + pair_spans(xs@.skip(i as int + 2), y as int));
            assert(row@ + span_pixels(x0 as int, x1 as int, y as int) + pair_spans(
                xs@.skip(i as int + 2),
                y as int,
            ) =~= row@ + pair_spans(rem, y as int));
        }
        let mut x = x0;
        while x <= x1
            invariant
                -8_000_000 <= x0 <= 8_000_000,
                -8_000_000 <= x1 <= 8_000_000,
                -2_000_000 <= y <= 2_000_000,
                x == x0 || x0 <= x <= x1 + 1,
                row@ + span_pixels(x as int, x1 as int, y as int) + pair_spans(
                    xs@.skip(i as int + 2),
                    y as int,
                ) == pair_spans(xs@, y as int),
            decreases x1 + 1 - x,
        {
            proof {
                let px = black_at(x as int, y as int);
                assert(span_pixels(x as int, x1 as int, y as int) == seq![px] + span_pixels(
                    x as int + 1,
                    x1 as int,
                    y as int,
                ));
                assert(row@.push(px) + span_pixels(x as int + 1, x1 as int, y as int)
                    =~= row@ + span_pixels(x as int, x1 as int, y as int));
                assert(row@.push(px) + span_pixels(x as int + 1, x1 as int, y as int)
                    + pair_spans(xs@.skip(i as int + 2), y as int) =~= row@ + span_pixels(
                    x as int,
                    x1 as int,
                    y as int,
                ) + pair_spans(xs@.skip(i as int + 2), y as int));
            }
            row.push(Pixel::new_black(x as i32, y as i32, 255));
            x = x + 1;
        }
        proof {
            assert(span_pixels(x as int, x1 as int, y as int) =~= Seq::<Pixel>::empty());
            assert(row@ + pair_spans(xs@.skip(i as int + 2), y as int) =~= row@ + span_pixels(
                x as int,
                x1 as int,
                y as int,
            ) + pair_spans(xs@.skip(i as int + 2), y as int));
        }
        i = i + 2;
    }
    proof {
        if i < n {
            assert(xs@.skip(i as int).len() == 1);
        } else {
            assert(xs@.skip(i as int).len() == 0);
        }
        assert(pair_spans(xs@.skip(i as int), y as int) =~= Seq::<Pixel>::empty());
        assert(row@ =~= pair_spans(xs@, y as int));
    }
    row
}

/// The smallest y among the first `k` vertices.
pub open spec fn min_y_upto(pts: Seq<Point>, k: int) -> int
    decreases k,
{
    if k <= 1 {
        pts[0].y as int
    } else if pts[k - 1].y < min_y_upto(pts, k - 1) {
        pts[k - 1].y as int
    } else {
        min_y_upto(pts, k - 1)
    }
}

/// The largest y among the first `k` vertices.
pub open spec fn max_y_upto(pts: Seq<Point>, k: int) -> int
    decreases k,
{
    if k <= 1 {
        pts[0].y as int
    } else if pts[k - 1].y > max_y_upto(pts, k - 1) {
        pts[k - 1].y as int
    } else {
        max_y_upto(pts, k - 1)
    }
}

/// The complete batch sequence of either scanline fill of a polygon: one
/// row per scanline between the lowest and highest vertex, or nothing for
/// a degenerate polygon.
pub open spec fn scanline_fill_batches(pts: Seq<Point>) -> Seq<Seq<Pixel>> {
    if pts.len() < 3 {
        Seq::empty()
    } else {
        fill_rows(
            scan_edges(pts, pts.len() as int),
            min_y_upto(pts, pts.len() as int),
            max_y_upto(pts, pts.len() as int),
        )
    }
}

/// Build the non-horizontal scan edges of a polygon.
fn build_edges(pts: &Vec<Point>) -> (out: Vec<ScanEdge>)
    requires
        poly_wf(pts@),
    ensures
        out@ == scan_edges(pts@, pts@.len() as int),
        out@.len() <= pts@.len(),
        forall|j: int| 0 <= j < out@.len() ==> edge_wf(#[trigger] out@[j]),
{
    let n = pts.len();
    let mut out: Vec<ScanEdge> = Vec::new();
    let mut i: usize = 0;
    while i < n
        invariant
            poly_wf(pts@),
            n == pts@.len(),
            0 <= i <= n,
            out@ == scan_edges(pts@, i as int),
            out@.len() <= i,
            forall|j: int| 0 <= j < out@.len() ==> edge_wf(#[trigger] out@[j]),
        decreases n - i,
    {
        let a = pts[i];
        let b = pts[if i + 1 == n {
            0
        } else {
            i + 1
        }];
        proof {
            if i + 1 == n {
                vstd::arithmetic::div_mod::lemma_mod_self_0(n as int);
            } else {
                vstd::arithmetic::div_mod::lemma_small_mod((i + 1) as nat, n as nat);
            }
        }
        if a.y != b.y {
            let (lo, hi) = if a.y < b.y {
                (a, b)
            } else {
                (b, a)
            };
            out.push(
                ScanEdge {
                    ymin: lo.y as i64,
                    ymax: hi.y as i64,
                    xmin: lo.x as i64,
                    dx: hi.x as i64 - lo.x as i64,
                },
            );
            proof {
                assert(out@ =~= scan_edges(pts@, i as int + 1));
            }
        } else {
            proof {
                assert(out@ =~= scan_edges(pts@, i as int + 1));
            }
        }
        i = i + 1;
    }
    out
}

/// The intersection numerator of an active edge stays within scaled
/// coordinate bounds, and the rounded intersection within plain bounds.
proof fn lemma_xnum_bounds(e: ScanEdge, y: int)
    requires
        edge_wf(e),
        e.ymin <= y <= e.ymax,
    ensures
        -(e.ymax - e.ymin) * 4_000_000 <= xnum(e, y) <= (e.ymax - e.ymin) * 4_000_000,
        -10_000_000_000_000 <= xnum(e, y) <= 10_000_000_000_000,
        -4_000_000 <= rx(e, y) <= 4_000_000,
{
    let dy = e.ymax - e.ymin;
    assert(-dy * 4_000_000 <= xnum(e, y) <= dy * 4_000_000 && -10_000_000_000_000 <= xnum(e, y)
        <= 10_000_000_000_000) by (nonlinear_arith)
        requires
            edge_wf(e),
            e.ymin <= y <= e.ymax,
            dy == e.ymax - e.ymin,
    ;
    crate::polygon::lemma_round_small(xnum(e, y), dy, 4_000_000);
}

/// Advancing one scanline shifts the intersection numerator by `dx`.
proof fn lemma_xnum_step(e: ScanEdge, y: int)
    ensures
        xnum(e, y) == xnum(e, y - 1) + e.dx,
{
    assert(xnum(e, y) == xnum(e, y - 1) + e.dx) by (nonlinear_arith);
}

/// The edges active among the first `k` are at most `k`.
proof fn lemma_active_seq_len(edges: Seq<ScanEdge>, y: int, k: int)
    requires
        0 <= k <= edges.len(),
    ensures
        active_seq(edges, y, k).len() <= k,
    decreases k,
{
    if k > 0 {
        lemma_active_seq_len(edges, y, k - 1);
    }
}

/// `active_seq` over a prefix of the edge list is a prefix of `active_seq`
/// over the whole list.
proof fn lemma_active_seq_prefix(edges: Seq<ScanEdge>, y: int, k: int, m: int)
    requires
        0 <= k <= m <= edges.len(),
    ensures
        active_seq(edges, y, k).len() <= active_seq(edges, y, m).len(),
        forall|j: int|
            0 <= j < active_seq(edges, y, k).len() ==> #[trigger] active_seq(edges, y, m)[j]
                == active_seq(edges, y, k)[j],
    decreases m - k,
{
    if k < m {
        lemma_active_seq_prefix(edges, y, k, m - 1);
    }
}

/// One row of a scanline fill: round the given intersections, sort them,
/// and fill the spans between successive pairs.
fn row_from_xs(xs: Vec<i64>, y: i64) -> (row: Vec<Pixel>)
    requires
        -2_000_000 <= y <= 2_000_000,
        xs@.len() < 100_000,
        forall|j: int| 0 <= j < xs@.len() ==> -8_000_000 <= #[trigger] xs@[j] <= 8_000_000,
    ensures
        row@ == pair_spans(xs@.sort_by(col_order()), y as int),
{
    let ghost xs0 = xs@;
    let sorted = sort_columns(xs);
    proof {
        broadcast use vstd::seq_lib::group_to_multiset_ensures;

        assert(vstd::relations::total_ordering(col_order()));
        xs0.lemma_sort_by_ensures(col_order());
        assert forall|j: int|
            0 <= j < sorted@.len() implies -8_000_000 <= #[trigger] sorted@[j] <= 8_000_000 by {
            assert(sorted@.contains(sorted@[j]));
            assert(xs0.to_multiset().count(sorted@[j]) > 0);
            assert(xs0.contains(sorted@[j]));
            let w = choose|w: int| 0 <= w < xs0.len() && xs0[w] == sorted@[j];
            assert(-8_000_000 <= xs0[w] <= 8_000_000);
        }
    }
    fill_pairs(&sorted, y)
}

/// The ordered-edge-list scanline fill: every scanline recomputes the
/// active edges and their intersections from the full edge list.
pub struct ScanFill {
    edges: Vec<ScanEdge>,
    y: i64,
    ymax: i64,
}

impl crate::gen::PixelSource for ScanFill {
    closed spec fn wf(&self) -> bool {
        &&& self.edges@.len() <= 1_000
        &&& forall|j: int| 0 <= j < self.edges@.len() ==> edge_wf(#[trigger] self.edges@[j])
        &&& -1_000_001 <= self.y <= 1_000_001
        &&& self.ymax <= 1_000_000
    }

    closed spec fn remaining(&self) -> Seq<Seq<Pixel>> {
        fill_rows(self.edges@, self.y as int, self.ymax as int)
    }

    fn step(&mut self) -> (r: Option<Vec<Pixel>>) {
        if self.y > self.ymax {
            return None;
        }
        let n = self.edges.len();
        let mut xs: Vec<i64> = Vec::new();
        let mut i: usize = 0;
        while i < n
            invariant
                self.wf(),
                n == self.edges@.len(),
                self.y <= self.ymax,
                0 <= i <= n,
                xs@.len() <= i,
                xs@ == active_seq(self.edges@, self.y as int, i as int).map_values(
                    |e: ScanEdge| rx(e, self.y as int),
                ),
                forall|j: int| 0 <= j < xs@.len() ==> -8_000_000 <= #[trigger] xs@[j] <= 8_000_000,
            decreases n - i,
        {
            let e = self.edges[i];
            if e.ymin <= self.y && self.y <= e.ymax {
                proof {
                    lemma_xnum_bounds(e, self.y as int);
                    crate::geometry::lemma_product_bound2(
                        e.xmin as int,
                        e.ymax as int - e.ymin as int,
                        1_000_000,
                        2_000_000,
                    );
                    crate::geometry::lemma_product_bound2(
                        self.y as int - e.ymin as int,
                        e.dx as int,
                        2_100_000,
                        2_000_000,
                    );
                }
                let num = e.xmin * (e.ymax - e.ymin) + (self.y - e.ymin) * e.dx;
                let x = crate::geometry::div_round(num, e.ymax - e.ymin);
                xs.push(x);
                proof {
                    assert(xs@ =~= active_seq(self.edges@, self.y as int, i as int + 1).map_values(
                        |e2: ScanEdge| rx(e2, self.y as int),
                    ));
                }
            } else {
                proof {
                    assert(xs@ =~= active_seq(self.edges@, self.y as int, i as int + 1).map_values(
                        |e2: ScanEdge| rx(e2, self.y as int),
                    ));
                }
            }
            i = i + 1;
        }
        let row = row_from_xs(xs, self.y);
        let ghost rem0 = self.remaining();
        self.y = self.y + 1;
        proof {
            assert(rem0[0] =~= row@);
            assert(rem0.skip(1) =~= self.remaining());
        }
        Some(row)
    }
}

/// One entry of the persistent active-edge list: the edge's top scanline,
/// its denominator and slope numerator, and the running intersection
/// numerator.
pub struct ActiveEdge {
    pub ymax: i64,
    pub dy: i64,
    pub dx: i64,
    pub xnum: i64,
}

/// Whether an active entry carries edge `e`'s state at scanline `y`.
pub open spec fn entry_matches(a: ActiveEdge, e: ScanEdge, y: int) -> bool {
    &&& a.ymax == e.ymax
    &&& a.dy == e.ymax - e.ymin
    &&& a.dx == e.dx
    &&& a.xnum == xnum(e, y)
}

/// Whether the active list carries exactly the edges active at scanline
/// `y`, in edge order.
pub open spec fn active_matches(act: Seq<ActiveEdge>, edges: Seq<ScanEdge>, y: int) -> bool {
    let ase = active_seq(edges, y, edges.len() as int);
    &&& act.len() == ase.len()
    &&& forall|j: int| 0 <= j < ase.len() ==> entry_matches(#[trigger] act[j], ase[j], y)
}

/// The active-edge-list scanline fill: a persistent active set is carried
/// across scanlines and each edge's intersection numerator advances by its
/// slope instead of being recomputed.
pub struct ActiveFill {
    edges: Vec<ScanEdge>,
    active: Vec<ActiveEdge>,
    y: i64,
    ymax: i64,
}

impl crate::gen::PixelSource for ActiveFill {
    closed spec fn wf(&self) -> bool {
        &&& self.edges@.len() <= 1_000
        &&& forall|j: int| 0 <= j < self.edges@.len() ==> edge_wf(#[trigger] self.edges@[j])
        &&& -1_000_001 <= self.y <= 1_000_001
        &&& self.ymax <= 1_000_000
        &&& active_matches(self.active@, self.edges@, self.y as int - 1)
    }

    closed spec fn remaining(&self) -> Seq<Seq<Pixel>> {
        fill_rows(self.edges@, self.y as int, self.ymax as int)
    }

    fn step(&mut self) -> (r: Option<Vec<Pixel>>) {
        if self.y > self.ymax {
            return None;
        }
        let ghost edges = self.edges@;
        let ghost yi = self.y as int;
        let n = self.edges.len();
        let mut newactive: Vec<ActiveEdge> = Vec::new();
        let mut xs: Vec<i64> = Vec::new();
        let mut c: usize = 0;
        let mut i: usize = 0;
        proof {
            lemma_active_seq_prefix(edges, yi - 1, 0, n as int);
            lemma_active_seq_len(edges, yi - 1, n as int);
        }
        while i < n
            invariant
                self.wf(),
                edges == self.edges@,
                yi == self.y as int,
                self.y <= self.ymax,
                n == edges.len(),
                0 <= i <= n,
                c == active_seq(edges, yi - 1, i as int).len(),
                c <= self.active@.len() <= 1_000,
                newactive@.len() == active_seq(edges, yi, i as int).len(),
                forall|j: int|
                    0 <= j < newactive@.len() ==> entry_matches(
                        #[trigger] newactive@[j],
                        active_seq(edges, yi, i as int)[j],
                        yi,
                    ),
                xs@.len() == newactive@.len(),
                xs@ == active_seq(edges, yi, i as int).map_values(|e: ScanEdge| rx(e, yi)),
                forall|j: int| 0 <= j < xs@.len() ==> -8_000_000 <= #[trigger] xs@[j] <= 8_000_000,
            decreases n - i,
        {
            let e = self.edges[i];
            proof {
                lemma_active_seq_prefix(edges, yi - 1, i as int, n as int);
                lemma_active_seq_prefix(edges, yi, i as int, n as int);
            }
            if e.ymin < self.y && e.ymax + 1 >= self.y {
                // The edge was active on the previous scanline: its entry
                // is next in the old list.
                proof {
                    assert(active_seq(edges, yi - 1, i as int + 1) == active_seq(
                        edges,
                        yi - 1,
                        i as int,
                    ) + seq![e]);
                    lemma_active_seq_prefix(edges, yi - 1, i as int + 1, n as int);
                    assert(active_seq(edges, yi - 1, n as int)[c as int] == e);
                    assert(entry_matches(self.active@[c as int], e, yi - 1));
                    lemma_xnum_step(e, yi);
                    lemma_xnum_bounds(e, yi - 1);
                }
                let axnum = self.active[c].xnum;
                let adx = self.active[c].dx;
                proof {
                    assert(axnum == xnum(e, yi - 1) && adx == e.dx);
                }
                let entry = ActiveEdge {
                    ymax: self.active[c].ymax,
                    dy: self.active[c].dy,
                    dx: adx,
                    xnum: axnum + adx,
                };
                c = c + 1;
                if e.ymax >= self.y {
                    proof {
                        lemma_xnum_bounds(e, yi);
                        assert(active_seq(edges, yi, i as int + 1) == active_seq(
                            edges,
                            yi,
                            i as int,
                        ) + seq![e]);
                    }
                    let x = crate::geometry::div_round(entry.xnum, entry.dy);
                    newactive.push(entry);
                    xs.push(x);
                    proof {
                        assert(xs@ =~= active_seq(edges, yi, i as int + 1).map_values(
                            |e2: ScanEdge| rx(e2, yi),
                        ));
                    }
                } else {
                    proof {
                        assert(active_seq(edges, yi, i as int + 1) == active_seq(
                            edges,
                            yi,
                            i as int,
                        ));
                        assert(xs@ =~= active_seq(edges, yi, i as int + 1).map_values(
                            |e2: ScanEdge| rx(e2, yi),
                        ));
                    }
                }
            } else if e.ymin == self.y {
                // Newly activated: its numerator starts at the lower
                // endpoint.
                proof {
                    assert(active_seq(edges, yi - 1, i as int + 1) == active_seq(
                        edges,
                        yi - 1,
                        i as int,
                    ));
                    assert(active_seq(edges, yi, i as int + 1) == active_seq(edges, yi, i as int)
                        + seq![e]);
                    lemma_xnum_bounds(e, yi);
                    crate::geometry::lemma_product_bound2(
                        e.xmin as int,
                        e.ymax as int - e.ymin as int,
                        1_000_000,
                        2_000_000,
                    );
                    assert(xnum(e, yi) == e.xmin * (e.ymax - e.ymin)) by (nonlinear_arith)
                        requires
                            yi == e.ymin,
                    ;
                }
                let dy = e.ymax - e.ymin;
                let entry = ActiveEdge { ymax: e.ymax, dy, dx: e.dx, xnum: e.xmin * dy };
                let x = crate::geometry::div_round(entry.xnum, entry.dy);
                newactive.push(entry);
                xs.push(x);
                proof {
                    assert(xs@ =~= active_seq(edges, yi, i as int + 1).map_values(
                        |e2: ScanEdge| rx(e2, yi),
                    ));
                }
            } else {
                proof {
                    assert(active_seq(edges, yi - 1, i as int + 1) == active_seq(
                        edges,
                        yi - 1,
                        i as int,
                    ));
                    assert(active_seq(edges, yi, i as int + 1) == active_seq(edges, yi, i as int));
                    assert(xs@ =~= active_seq(edges, yi, i as int + 1).map_values(
                        |e2: ScanEdge| rx(e2, yi),
                    ));
                }
            }
            i = i + 1;
        }
        proof {
            lemma_active_seq_len(edges, yi, n as int);
        }
        self.active = newactive;
        let row = row_from_xs(xs, self.y);
        let ghost rem0 = fill_rows(edges, yi, self.ymax as int);
        self.y = self.y + 1;
        proof {
            assert(rem0[0] =~= row@);
            assert(rem0.skip(1) =~= self.remaining());
        }
        Some(row)
    }
}

/// Every vertex's y lies between the running minimum and maximum.
proof fn lemma_y_range(pts: Seq<Point>, k: int)
    requires
        1 <= k <= pts.len(),
    ensures
        forall|j: int|
            0 <= j < k ==> min_y_upto(pts, k) <= (#[trigger] pts[j]).y <= max_y_upto(pts, k),
    decreases k,
{
    if k > 1 {
        lemma_y_range(pts, k - 1);
    }
}

/// Every scan edge spans scanlines within the vertex y range.
proof fn lemma_scan_edges_y_range(pts: Seq<Point>, k: int)
    requires
        poly_wf(pts),
        1 <= pts.len(),
        0 <= k <= pts.len(),
    ensures
        forall|j: int|
            0 <= j < scan_edges(pts, k).len() ==> min_y_upto(pts, pts.len() as int)
                <= (#[trigger] scan_edges(pts, k)[j]).ymin && scan_edges(pts, k)[j].ymax
                <= max_y_upto(pts, pts.len() as int),
    decreases k,
{
    if k > 0 {
        lemma_scan_edges_y_range(pts, k - 1);
        lemma_y_range(pts, pts.len() as int);
        vstd::arithmetic::div_mod::lemma_mod_bound(k, pts.len() as int);
        let lo = min_y_upto(pts, pts.len() as int);
        let hi = max_y_upto(pts, pts.len() as int);
        let older = scan_edges(pts, k - 1);
        assert forall|j: int|
            0 <= j < scan_edges(pts, k).len() implies lo <= (#[trigger] scan_edges(pts, k)[j]).ymin
            && scan_edges(pts, k)[j].ymax <= hi by {
            if j < older.len() {
                assert(scan_edges(pts, k)[j] == older[j]);
                assert(lo <= older[j].ymin && older[j].ymax <= hi);
            } else {
                let a = pts[k - 1];
                let b = pts[k % (pts.len() as int)];
                assert(lo <= a.y <= hi);
                assert(lo <= b.y <= hi);
            }
        }
    }
}

/// No edge is active below every edge's lowest scanline.
proof fn lemma_active_seq_empty(edges: Seq<ScanEdge>, y: int, k: int)
    requires
        0 <= k <= edges.len(),
        forall|j: int| 0 <= j < edges.len() ==> !edge_active(#[trigger] edges[j], y),
    ensures
        active_seq(edges, y, k).len() == 0,
    decreases k,
{
    if k > 0 {
        lemma_active_seq_empty(edges, y, k - 1);
    }
}

/// The lowest and highest vertex scanlines of a polygon.
fn vertex_y_range(pts: &Vec<Point>) -> (r: (i64, i64))
    requires
        poly_wf(pts@),
        pts@.len() >= 1,
    ensures
        r.0 == min_y_upto(pts@, pts@.len() as int),
        r.1 == max_y_upto(pts@, pts@.len() as int),
        -1_000_000 <= r.0 <= r.1 <= 1_000_000,
{
    let n = pts.len();
    let mut miny = pts[0].y as i64;
    let mut maxy = pts[0].y as i64;
    let mut i: usize = 1;
    while i < n
        invariant
            poly_wf(pts@),
            n == pts@.len(),
            1 <= i <= n,
            miny == min_y_upto(pts@, i as int),
            maxy == max_y_upto(pts@, i as int),
            -1_000_000 <= miny <= maxy <= 1_000_000,
        decreases n - i,
    {
        let y = pts[i].y as i64;
        if y < miny {
            miny = y;
        }
        if y > maxy {
            maxy = y;
        }
        i = i + 1;
    }
    (miny, maxy)
}

impl crate::polygon::Polygon {
    /// Fill algorithm I, the ordered-edge-list scanline fill: build one
    /// edge per non-horizontal side and recompute the active intersections
    /// on every scanline.
    pub fn first(&self) -> (g: ScanFill)
        requires
            self.wf(),
        ensures
            g.wf(),
            g.remaining() == scanline_fill_batches(self.points()),
    {
        let pts = self.vertices();
        if pts.len() < 3 {
            let g = ScanFill { edges: Vec::new(), y: 1, ymax: 0 };
            proof {
                assert(g.remaining() =~= scanline_fill_batches(self.points()));
            }
            return g;
        }
        let edges = build_edges(pts);
        let (miny, maxy) = vertex_y_range(pts);
        ScanFill { edges, y: miny, ymax: maxy }
    }

    /// Fill algorithm II, the active-edge-list scanline fill: the same
    /// edge model, but a persistent active set whose intersections advance
    /// incrementally across scanlines.
    pub fn second(&self) -> (g: ActiveFill)
        requires
            self.wf(),
        ensures
            g.wf(),
            g.remaining() == scanline_fill_batches(self.points()),
    {
        let pts = self.vertices();
        if pts.len() < 3 {
            let g = ActiveFill { edges: Vec::new(), active: Vec::new(), y: 1, ymax: 0 };
            proof {
                assert(active_seq(g.edges@, 0, 0).len() == 0);
                assert(g.remaining() =~= scanline_fill_batches(self.points()));
            }
            return g;
        }
        let edges = build_edges(pts);
        let (miny, maxy) = vertex_y_range(pts);
        let g = ActiveFill { edges, active: Vec::new(), y: miny, ymax: maxy };
        proof {
            lemma_scan_edges_y_range(pts@, pts@.len() as int);
            assert forall|j: int|
                0 <= j < g.edges@.len() implies !edge_active(
                #[trigger] g.edges@[j],
                miny as int - 1,
            ) by {
                assert(g.edges@[j].ymin >= miny);
            }
            lemma_active_seq_empty(g.edges@, miny as int - 1, g.edges@.len() as int);
        }
        g
    }
}

/// The step cap of the seed fills.  It only grounds the walk's
/// termination: it exceeds the number of pixels in the whole coordinate
/// space (about four million million), and every step fills at least one
/// previously unfilled pixel, so no reachable fill can ever exhaust it.
pub const SEED_FILL_BUDGET: u64 = 0x4000_0000_0000_0000;

/// Whether a popped seed is skipped: already visited, out of coordinate
/// bounds, exactly on the polygon boundary, or outside the polygon.
pub open spec fn seed_skipped(pts: Seq<Point>, visited: Seq<Point>, p: Point) -> bool {
    ||| visited.contains(p)
    ||| !p.spec_in_bounds()
    ||| crate::polygon::spec_on_boundary(pts, p)
    ||| !crate::polygon::spec_is_inside(pts, p)
}

/// Pop seeds until one is filled: the filled seed, the stack with its four
/// neighbors pushed, and the grown visited set; `None` once the stack
/// empties.
pub open spec fn flood_pop(pts: Seq<Point>, stack: Seq<Point>, visited: Seq<Point>) -> Option<
    (Point, Seq<Point>, Seq<Point>),
>
    decreases stack.len(),
{
    if stack.len() == 0 {
        Option::None
    } else {
        let p = stack.last();
        let rest = stack.drop_last();
        if seed_skipped(pts, visited, p) {
            flood_pop(pts, rest, visited)
        } else {
            Option::Some(
                (
                    p,
                    rest.push(Point { x: (p.x + 1) as i32, y: p.y }).push(
                        Point { x: (p.x - 1) as i32, y: p.y },
                    ).push(Point { x: p.x, y: (p.y + 1) as i32 }).push(
                        Point { x: p.x, y: (p.y - 1) as i32 },
                    ),
                    visited.push(p),
                ),
            )
        }
    }
}

/// The batches of a seed fill from the given state: one interior pixel per
/// step, capped at `fuel` steps.
pub open spec fn flood_walk(pts: Seq<Point>, stack: Seq<Point>, visited: Seq<Point>, fuel: nat)
    -> Seq<Seq<Pixel>>
    decreases fuel,
{
    if fuel == 0 {
        Seq::empty()
    } else {
        match flood_pop(pts, stack, visited) {
            Option::Some(step) => seq![seq![black_at(step.0.x as int, step.0.y as int)]]
                + flood_walk(pts, step.1, step.2, (fuel - 1) as nat),
            Option::None => Seq::empty(),
        }
    }
}

/// Whether `p` occurs in the vector.
fn contains_point(v: &Vec<Point>, p: Point) -> (r: bool)
    ensures
        r == v@.contains(p),
{
    let n = v.len();
    let mut i: usize = 0;
    while i < n
        invariant
            n == v@.len(),
            0 <= i <= n,
            forall|k: int| 0 <= k < i ==> v@[k] != p,
        decreases n - i,
    {
        if v[i] == p {
            return true;
        }
        i = i + 1;
    }
    false
}

/// The four-connected seed fill from the polygon centroid: an explicit
/// stack and a visited list, stopping at the boundary or outside the
/// polygon, capped at `SEED_FILL_BUDGET` filled pixels.
pub struct SeedFill {
    pts: Vec<Point>,
    stack: Vec<Point>,
    visited: Vec<Point>,
    budget: u64,
}

/// Every stacked seed stays within one pixel of the coordinate bounds.
pub open spec fn stack_wf(stack: Seq<Point>) -> bool {
    forall|i: int|
        0 <= i < stack.len() ==> -2_000_000 <= (#[trigger] stack[i]).x <= 2_000_000 && -2_000_000
            <= stack[i].y <= 2_000_000
}

impl crate::gen::PixelSource for SeedFill {
    closed spec fn wf(&self) -> bool {
        &&& poly_wf(self.pts@)
        &&& stack_wf(self.stack@)
    }

    closed spec fn remaining(&self) -> Seq<Seq<Pixel>> {
        flood_walk(self.pts@, self.stack@, self.visited@, self.budget as nat)
    }

    fn step(&mut self) -> (r: Option<Vec<Pixel>>) {
        if self.budget == 0 {
            return None;
        }
        let ghost pts = self.pts@;
        let ghost target = flood_pop(pts, self.stack@, self.visited@);
        loop
            invariant_except_break
                self.wf(),
                pts == self.pts@,
                pts == old(self).pts@,
                self.budget >= 1,
                self.visited@ == old(self).visited@,
                self.budget == old(self).budget,
                flood_pop(pts, self.stack@, self.visited@) == target,
                target == flood_pop(pts, old(self).stack@, old(self).visited@),
            ensures
                self.wf(),
                pts == self.pts@,
                pts == old(self).pts@,
                self.budget == old(self).budget,
                target == flood_pop(pts, old(self).stack@, old(self).visited@),
                match target {
                    Option::Some(step) => self.stack@ == step.1 && self.visited@ == step.2
                        && self.visited@.len() >= 1 && self.visited@.last() == step.0,
                    Option::None => true,
                },
                target is Some,
            decreases self.stack@.len(),
        {
            let ghost pre = self.stack@;
            let popped = self.stack.pop();
            match popped {
                None => {
                    proof {
                        assert(target is None);
                        assert(flood_walk(
                            pts,
                            old(self).stack@,
                            old(self).visited@,
                            old(self).budget as nat,
                        ) =~= Seq::<Seq<Pixel>>::empty());
                    }
                    return None;
                },
                Some(p) => {
                    proof {
                        assert(pre =~= self.stack@.push(p));
                        assert(flood_pop(pts, pre, self.visited@) == target);
                        assert(pre.last() == p);
                        assert(pre.drop_last() =~= self.stack@);
                    }
                    let skip = contains_point(&self.visited, p) || !p.in_bounds()
                        || crate::polygon::is_on_boundary(&self.pts, p) || !crate::polygon::is_inside(
                        &self.pts,
                        p,
                    );
                    if !skip {
                        proof {
                            assert(!seed_skipped(pts, self.visited@, p));
                        }
                        self.stack.push(Point { x: p.x + 1, y: p.y });
                        self.stack.push(Point { x: p.x - 1, y: p.y });
                        self.stack.push(Point { x: p.x, y: p.y + 1 });
                        self.stack.push(Point { x: p.x, y: p.y - 1 });
                        self.visited.push(p);
                        break ;
                    }
                    proof {
                        assert(seed_skipped(pts, self.visited@, p));
                    }
                },
            }
        }
        let p = self.visited[self.visited.len() - 1];
        let mut v: Vec<Pixel> = Vec::new();
        v.push(Pixel::new_black(p.x, p.y, 255));
        self.budget = self.budget - 1;
        proof {
            let rem0 = flood_walk(pts, old(self).stack@, old(self).visited@, old(self).budget as nat);
            assert(rem0[0] =~= v@);
            assert(rem0.skip(1) =~= self.remaining());
        }
        Some(v)
    }
}

impl crate::polygon::Polygon {
    /// Fill algorithm III, the stack seed fill: flood outward from the
    /// polygon centroid, four-connected, skipping boundary and exterior
    /// pixels, one filled pixel per step.
    pub fn third(&self) -> (g: SeedFill)
        requires
            self.wf(),
        ensures
            g.wf(),
            self.points().len() == 0 ==> g.remaining().len() == 0,
            self.points().len() >= 1 ==> g.remaining() == flood_walk(
                self.points(),
                seq![crate::polygon::spec_centroid(self.points())],
                Seq::empty(),
                SEED_FILL_BUDGET as nat,
            ),
    {
        let pts = self.vertices().clone();
        if pts.len() == 0 {
            let g = SeedFill {
                pts,
                stack: Vec::new(),
                visited: Vec::new(),
                budget: SEED_FILL_BUDGET,
            };
            return g;
        }
        let seed = crate::polygon::find_centroid(&pts);
        let mut stack: Vec<Point> = Vec::new();
        stack.push(seed);
        let g = SeedFill { pts, stack, visited: Vec::new(), budget: SEED_FILL_BUDGET };
        proof {
            assert(g.stack@ =~= seq![crate::polygon::spec_centroid(self.points())]);
            assert(g.visited@ =~= Seq::<Point>::empty());
        }
        g
    }
}

/// Whether a pixel is a fillable interior cell: within bounds, not on the
/// boundary, and inside the polygon.
pub open spec fn cell_fillable(pts: Seq<Point>, p: Point) -> bool {
    &&& p.spec_in_bounds()
    &&& !crate::polygon::spec_on_boundary(pts, p)
    &&& crate::polygon::spec_is_inside(pts, p)
}

/// The leftmost x a span extends to from `x` on row `y`.
pub open spec fn span_left_end(pts: Seq<Point>, x: int, y: int) -> int
    decreases x + 1_000_002,
{
    if cell_fillable(pts, Point { x: (x - 1) as i32, y: y as i32 }) && x >= -1_000_001 {
        span_left_end(pts, x - 1, y)
    } else {
        x
    }
}

/// The rightmost x a span extends to from `x` on row `y`.
pub open spec fn span_right_end(pts: Seq<Point>, x: int, y: int) -> int
    decreases 1_000_002 - x,
{
    if cell_fillable(pts, Point { x: (x + 1) as i32, y: y as i32 }) && x <= 1_000_001 {
        span_right_end(pts, x + 1, y)
    } else {
        x
    }
}

/// The cells from `x` down to `left` on row `y` that are not yet visited,
/// in decreasing x order.
pub open spec fn cells_dec(visited: Seq<Point>, x: int, left: int, y: int) -> Seq<Point>
    decreases x + 1 - left,
{
    if x < left {
        Seq::empty()
    } else {
        let p = Point { x: x as i32, y: y as i32 };
        (if visited.contains(p) {
            Seq::empty()
        } else {
            seq![p]
        }) + cells_dec(visited, x - 1, left, y)
    }
}

/// The cells from `x` up to `right` on row `y` that are not yet visited,
/// in increasing x order.
pub open spec fn cells_inc(visited: Seq<Point>, x: int, right: int, y: int) -> Seq<Point>
    decreases right + 1 - x,
{
    if x > right {
        Seq::empty()
    } else {
        let p = Point { x: x as i32, y: y as i32 };
        (if visited.contains(p) {
            Seq::empty()
        } else {
            seq![p]
        }) + cells_inc(visited, x + 1, right, y)
    }
}

/// The new seeds a filled span contributes on row `yrow`, from `dx` up to
/// `right`: unvisited interior cells in increasing x order.
pub open spec fn seeds_row(
    pts: Seq<Point>,
    visited: Seq<Point>,
    dx: int,
    right: int,
    yrow: int,
) -> Seq<Point>
    decreases right + 1 - dx,
{
    if dx > right {
        Seq::empty()
    } else {
        let p = Point { x: dx as i32, y: yrow as i32 };
        (if !visited.contains(p) && p.spec_in_bounds() && crate::polygon::spec_is_inside(pts, p) {
            seq![p]
        } else {
            Seq::empty()
        }) + seeds_row(pts, visited, dx + 1, right, yrow)
    }
}

/// One emitting step of the span seed fill from a popped fillable seed
/// `p`: the span cells filled in one pass, the grown visited set, and the
/// seeds pushed for the rows above and below.
pub open spec fn span_emit(pts: Seq<Point>, rest: Seq<Point>, visited: Seq<Point>, p: Point)
    -> (Seq<Point>, Seq<Point>, Seq<Point>) {
    let left = span_left_end(pts, p.x as int, p.y as int);
    let right = span_right_end(pts, p.x as int, p.y as int);
    let buffer = seq![p] + cells_dec(visited, p.x - 1, left, p.y as int) + cells_inc(
        visited,
        p.x + 1,
        right,
        p.y as int,
    );
    let visited1 = visited.push(p) + cells_dec(visited, p.x - 1, left, p.y as int) + cells_inc(
        visited,
        p.x + 1,
        right,
        p.y as int,
    );
    let stack1 = rest + seeds_row(pts, visited1, left, right, p.y - 1) + seeds_row(
        pts,
        visited1,
        left,
        right,
        p.y + 1,
    );
    (buffer, stack1, visited1)
}

/// Pop seeds until one is fillable, then fill its whole span: the span
/// fill's one-step transition.
pub open spec fn span_pop(pts: Seq<Point>, stack: Seq<Point>, visited: Seq<Point>) -> Option<
    (Seq<Point>, Seq<Point>, Seq<Point>),
>
    decreases stack.len(),
{
    if stack.len() == 0 {
        Option::None
    } else {
        let p = stack.last();
        let rest = stack.drop_last();
        if seed_skipped(pts, visited, p) {
            span_pop(pts, rest, visited)
        } else {
            Option::Some(span_emit(pts, rest, visited, p))
        }
    }
}

/// The pixels of a batch of span cells.
pub open spec fn cells_pixels(cells: Seq<Point>) -> Seq<Pixel> {
    cells.map_values(|c: Point| black_at(c.x as int, c.y as int))
}

/// The batches of the span seed fill from the given state, capped at
/// `fuel` steps.
pub open spec fn span_walk(pts: Seq<Point>, stack: Seq<Point>, visited: Seq<Point>, fuel: nat)
    -> Seq<Seq<Pixel>>
    decreases fuel,
{
    if fuel == 0 {
        Seq::empty()
    } else {
        match span_pop(pts, stack, visited) {
            Option::Some(step) => seq![cells_pixels(step.0)] + span_walk(
                pts,
                step.1,
                step.2,
                (fuel - 1) as nat,
            ),
            Option::None => Seq::empty(),
        }
    }
}

/// Splitting the decreasing span cells at their lower bound.
proof fn lemma_cells_dec_split(visited: Seq<Point>, x: int, left: int, y: int)
    requires
        left <= x,
    ensures
        cells_dec(visited, x, left, y) == cells_dec(visited, x, left + 1, y) + cells_dec(
            visited,
            left,
            left,
            y,
        ),
    decreases x - left,
{
    if x == left {
        assert(cells_dec(visited, x, left + 1, y) =~= Seq::<Point>::empty());
        assert(cells_dec(visited, x, left, y) =~= cells_dec(visited, x, left + 1, y) + cells_dec(
            visited,
            left,
            left,
            y,
        ));
    } else {
        lemma_cells_dec_split(visited, x - 1, left, y);
        assert(cells_dec(visited, x, left, y) =~= cells_dec(visited, x, left + 1, y) + cells_dec(
            visited,
            left,
            left,
            y,
        ));
    }
}

/// Splitting the increasing span cells at their upper bound.
proof fn lemma_cells_inc_split(visited: Seq<Point>, x: int, right: int, y: int)
    requires
        x <= right,
    ensures
        cells_inc(visited, x, right, y) == cells_inc(visited, x, right - 1, y) + cells_inc(
            visited,
            right,
            right,
            y,
        ),
    decreases right - x,
{
    if x == right {
        assert(cells_inc(visited, x, right - 1, y) =~= Seq::<Point>::empty());
        assert(cells_inc(visited, x, right, y) =~= cells_inc(visited, x, right - 1, y)
            + cells_inc(visited, right, right, y));
    } else {
        lemma_cells_inc_split(visited, x + 1, right, y);
        assert(cells_inc(visited, x, right, y) =~= cells_inc(visited, x, right - 1, y)
            + cells_inc(visited, right, right, y));
    }
}

/// Splitting the seed row at its upper bound.
proof fn lemma_seeds_row_split(pts: Seq<Point>, visited: Seq<Point>, left: int, dx: int, yrow: int)
    requires
        left <= dx,
    ensures
        seeds_row(pts, visited, left, dx, yrow) == seeds_row(pts, visited, left, dx - 1, yrow)
            + seeds_row(pts, visited, dx, dx, yrow),
    decreases dx - left,
{
    if left == dx {
        assert(seeds_row(pts, visited, left, dx - 1, yrow) =~= Seq::<Point>::empty());
        assert(seeds_row(pts, visited, left, dx, yrow) =~= seeds_row(pts, visited, left, dx - 1, yrow)
            + seeds_row(pts, visited, dx, dx, yrow));
    } else {
        lemma_seeds_row_split(pts, visited, left + 1, dx, yrow);
        assert(seeds_row(pts, visited, left, dx, yrow) =~= seeds_row(pts, visited, left, dx - 1, yrow)
            + seeds_row(pts, visited, dx, dx, yrow));
    }
}

/// Exact fillable-cell test.
fn cell_fillable_exec(pts: &Vec<Point>, p: Point) -> (r: bool)
    requires
        poly_wf(pts@),
    ensures
        r == cell_fillable(pts@, p),
{
    p.in_bounds() && !crate::polygon::is_on_boundary(pts, p) && crate::polygon::is_inside(pts, p)
}

/// Exact fillable-cell test at plain coordinates.
fn fillable_at(pts: &Vec<Point>, x: i32, y: i32) -> (r: bool)
    requires
        poly_wf(pts@),
    ensures
        r == cell_fillable(pts@, Point { x, y }),
{
    cell_fillable_exec(pts, Point { x, y })
}

/// The span seed fill from the polygon centroid: each step fills a whole
/// horizontal span in one pass and seeds only the rows above and below,
/// capped at `SEED_FILL_BUDGET` steps.
pub struct SpanFill {
    pts: Vec<Point>,
    stack: Vec<Point>,
    visited: Vec<Point>,
    budget: u64,
}

impl crate::gen::PixelSource for SpanFill {
    closed spec fn wf(&self) -> bool {
        &&& poly_wf(self.pts@)
        &&& stack_wf(self.stack@)
    }

    closed spec fn remaining(&self) -> Seq<Seq<Pixel>> {
        span_walk(self.pts@, self.stack@, self.visited@, self.budget as nat)
    }

    fn step(&mut self) -> (r: Option<Vec<Pixel>>) {
        if self.budget == 0 {
            return None;
        }
        let ghost pts = self.pts@;
        let ghost target = span_pop(pts, self.stack@, self.visited@);
        let mut seed = Point { x: 0, y: 0 };
        loop
            invariant_except_break
                self.wf(),
                pts == self.pts@,
                pts == old(self).pts@,
                self.budget >= 1,
                self.visited@ == old(self).visited@,
                self.budget == old(self).budget,
                span_pop(pts, self.stack@, self.visited@) == target,
                target == span_pop(pts, old(self).stack@, old(self).visited@),
            ensures
                self.wf(),
                pts == self.pts@,
                pts == old(self).pts@,
                self.budget == old(self).budget,
                self.visited@ == old(self).visited@,
                target == span_pop(pts, old(self).stack@, old(self).visited@),
                target is Some,
                target == Option::Some(
                    span_emit(pts, self.stack@, self.visited@, seed),
                ),
                !seed_skipped(pts, self.visited@, seed),
            decreases self.stack@.len(),
        {
            let ghost pre = self.stack@;
            let popped = self.stack.pop();
            match popped {
                None => {
                    proof {
                        assert(target is None);
                        assert(span_walk(
                            pts,
                            old(self).stack@,
                            old(self).visited@,
                            old(self).budget as nat,
                        ) =~= Seq::<Seq<Pixel>>::empty());
                    }
                    return None;
                },
                Some(p) => {
                    proof {
                        assert(pre =~= self.stack@.push(p));
                        assert(span_pop(pts, pre, self.visited@) == target);
                        assert(pre.last() == p);
                        assert(pre.drop_last() =~= self.stack@);
                    }
                    let skip = contains_point(&self.visited, p) || !cell_fillable_exec(
                        &self.pts,
                        p,
                    );
                    if !skip {
                        proof {
                            assert(!seed_skipped(pts, self.visited@, p));
                        }
                        seed = p;
                        break ;
                    }
                    proof {
                        assert(seed_skipped(pts, self.visited@, p));
                    }
                },
            }
        }
        let p = seed;
        let ghost rest = self.stack@;
        let ghost visited0 = self.visited@;
        // Fill the seed, then extend the span left and right, marking each
        // newly reached cell in the same pass.
        let mut buffer: Vec<Pixel> = Vec::new();
        buffer.push(Pixel::new_black(p.x, p.y, 255));
        self.visited.push(p);
        let mut left = p.x;
        while left > -1_000_001 && fillable_at(&self.pts, left - 1, p.y)
            invariant
                poly_wf(pts),
                pts == self.pts@,
                pts == old(self).pts@,
                self.stack@ == rest,
                stack_wf(rest),
                self.budget == old(self).budget,
                old(self).budget >= 1,
                p.spec_in_bounds(),
                -1_000_001 <= left <= p.x,
                span_left_end(pts, p.x as int, p.y as int) == span_left_end(
                    pts,
                    left as int,
                    p.y as int,
                ),
                buffer@ == cells_pixels(
                    seq![p] + cells_dec(visited0, p.x - 1, left as int, p.y as int),
                ),
                self.visited@ == visited0.push(p) + cells_dec(
                    visited0,
                    p.x - 1,
                    left as int,
                    p.y as int,
                ),
            decreases left + 1_000_001,
        {
            left = left - 1;
            let q = Point { x: left, y: p.y };
            proof {
                lemma_cells_dec_split(visited0, p.x - 1, left as int, p.y as int);
            }
            proof {
                lemma_visited_equiv_dec(
                    visited0,
                    p,
                    q,
                    p.x - 1,
                    left as int + 1,
                    p.y as int,
                );
            }
            if !contains_point(&self.visited, q) {
                self.visited.push(q);
                buffer.push(Pixel::new_black(q.x, q.y, 255));
                proof {
                    assert(cells_dec(visited0, left as int - 1, left as int, p.y as int)
                        =~= Seq::<Point>::empty());
                    assert(cells_dec(visited0, left as int, left as int, p.y as int) =~= seq![q]);
                    assert(buffer@ =~= cells_pixels(
                        seq![p] + cells_dec(visited0, p.x - 1, left as int, p.y as int),
                    ));
                    assert(self.visited@ =~= visited0.push(p) + cells_dec(
                        visited0,
                        p.x - 1,
                        left as int,
                        p.y as int,
                    ));
                }
            } else {
                proof {
                    assert(cells_dec(visited0, left as int - 1, left as int, p.y as int)
                        =~= Seq::<Point>::empty());
                    assert(cells_dec(visited0, left as int, left as int, p.y as int)
                        =~= Seq::<Point>::empty());
                    assert(buffer@ =~= cells_pixels(
                        seq![p] + cells_dec(visited0, p.x - 1, left as int, p.y as int),
                    ));
                    assert(self.visited@ =~= visited0.push(p) + cells_dec(
                        visited0,
                        p.x - 1,
                        left as int,
                        p.y as int,
                    ));
                }
            }
        }
        let ghost marked_left = self.visited@;
        let mut right = p.x;
        while right < 1_000_001 && fillable_at(&self.pts, right + 1, p.y)
            invariant
                poly_wf(pts),
                pts == self.pts@,
                pts == old(self).pts@,
                self.stack@ == rest,
                stack_wf(rest),
                self.budget == old(self).budget,
                old(self).budget >= 1,
                p.spec_in_bounds(),
                -1_000_001 <= left <= p.x,
                p.x <= right <= 1_000_001,
                span_right_end(pts, p.x as int, p.y as int) == span_right_end(
                    pts,
                    right as int,
                    p.y as int,
                ),
                buffer@ == cells_pixels(
                    seq![p] + cells_dec(visited0, p.x - 1, left as int, p.y as int) + cells_inc(
                        visited0,
                        p.x + 1,
                        right as int,
                        p.y as int,
                    ),
                ),
                self.visited@ == marked_left + cells_inc(
                    visited0,
                    p.x + 1,
                    right as int,
                    p.y as int,
                ),
                marked_left == visited0.push(p) + cells_dec(
                    visited0,
                    p.x - 1,
                    left as int,
                    p.y as int,
                ),
            decreases 1_000_001 - right,
        {
            right = right + 1;
            let q = Point { x: right, y: p.y };
            proof {
                lemma_cells_inc_split(visited0, p.x + 1, right as int, p.y as int);
            }
            proof {
                lemma_visited_equiv_inc(
                    visited0,
                    p,
                    q,
                    p.x - 1,
                    left as int,
                    p.x + 1,
                    right as int - 1,
                    p.y as int,
                );
            }
            if !contains_point(&self.visited, q) {
                self.visited.push(q);
                buffer.push(Pixel::new_black(q.x, q.y, 255));
                proof {
                    assert(cells_inc(visited0, right as int + 1, right as int, p.y as int)
                        =~= Seq::<Point>::empty());
                    assert(cells_inc(visited0, right as int, right as int, p.y as int)
                        =~= seq![q]);
                    assert(buffer@ =~= cells_pixels(
                        seq![p] + cells_dec(visited0, p.x - 1, left as int, p.y as int)
                            + cells_inc(visited0, p.x + 1, right as int, p.y as int),
                    ));
                    assert(self.visited@ =~= marked_left + cells_inc(
                        visited0,
                        p.x + 1,
                        right as int,
                        p.y as int,
                    ));
                }
            } else {
                proof {
                    assert(cells_inc(visited0, right as int + 1, right as int, p.y as int)
                        =~= Seq::<Point>::empty());
                    assert(cells_inc(visited0, right as int, right as int, p.y as int)
                        =~= Seq::<Point>::empty());
                    assert(buffer@ =~= cells_pixels(
                        seq![p] + cells_dec(visited0, p.x - 1, left as int, p.y as int)
                            + cells_inc(visited0, p.x + 1, right as int, p.y as int),
                    ));
                    assert(self.visited@ =~= marked_left + cells_inc(
                        visited0,
                        p.x + 1,
                        right as int,
                        p.y as int,
                    ));
                }
            }
        }
        // Seed the rows below and above from the filled span.
        seed_neighbor_row(&self.pts, &self.visited, &mut self.stack, left, right, p.y - 1);
        seed_neighbor_row(&self.pts, &self.visited, &mut self.stack, left, right, p.y + 1);
        self.budget = self.budget - 1;
        proof {
            let rem0 = span_walk(pts, old(self).stack@, old(self).visited@, old(self).budget as nat);
            assert(rem0[0] =~= buffer@);
            assert(rem0.skip(1) =~= self.remaining());
        }
        Some(buffer)
    }
}

/// Every cell the decreasing span pass records lies on row `y` with x
/// between `left` and `x`.
proof fn lemma_cells_dec_range(visited: Seq<Point>, x: int, left: int, y: int)
    requires
        -2_000_000 <= left,
        x <= 2_000_000,
        -2_200_000 <= y <= 2_200_000,
    ensures
        forall|k: int|
            0 <= k < cells_dec(visited, x, left, y).len() ==> left <= (#[trigger] cells_dec(
                visited,
                x,
                left,
                y,
            )[k]).x <= x && cells_dec(visited, x, left, y)[k].y == y,
    decreases x + 1 - left,
{
    if x >= left {
        lemma_cells_dec_range(visited, x - 1, left, y);
        let whole = cells_dec(visited, x, left, y);
        let rest = cells_dec(visited, x - 1, left, y);
        let hd = whole.len() - rest.len();
        assert forall|k: int|
            0 <= k < whole.len() implies left <= (#[trigger] whole[k]).x <= x && whole[k].y
            == y by {
            if k >= hd {
                assert(whole[k] == rest[k - hd]);
            }
        }
    }
}

/// Every cell the increasing span pass records lies on row `y` with x
/// between `x` and `right`.
proof fn lemma_cells_inc_range(visited: Seq<Point>, x: int, right: int, y: int)
    requires
        -2_000_000 <= x,
        right <= 2_000_000,
        -2_200_000 <= y <= 2_200_000,
    ensures
        forall|k: int|
            0 <= k < cells_inc(visited, x, right, y).len() ==> x <= (#[trigger] cells_inc(
                visited,
                x,
                right,
                y,
            )[k]).x <= right && cells_inc(visited, x, right, y)[k].y == y,
    decreases right + 1 - x,
{
    if x <= right {
        lemma_cells_inc_range(visited, x + 1, right, y);
        let whole = cells_inc(visited, x, right, y);
        let rest = cells_inc(visited, x + 1, right, y);
        let hd = whole.len() - rest.len();
        assert forall|k: int|
            0 <= k < whole.len() implies x <= (#[trigger] whole[k]).x <= right && whole[k].y
            == y by {
            if k >= hd {
                assert(whole[k] == rest[k - hd]);
            }
        }
    }
}

/// During the leftward pass, a cell strictly left of everything marked so
/// far is in the grown visited list exactly when it was visited before the
/// step.
proof fn lemma_visited_equiv_dec(visited0: Seq<Point>, p: Point, q: Point, x: int, left: int, y: int)
    requires
        q.y == y,
        p.y == y,
        -1_100_000 <= y <= 1_100_000,
        q.x < p.x,
        q.x < left,
        -2_000_000 <= left,
        x <= 2_000_000,
    ensures
        (visited0.push(p) + cells_dec(visited0, x, left, y)).contains(q) == visited0.contains(q),
{
    lemma_cells_dec_range(visited0, x, left, y);
    let grown = visited0.push(p) + cells_dec(visited0, x, left, y);
    if grown.contains(q) {
        let w = choose|w: int| 0 <= w < grown.len() && grown[w] == q;
        if w < visited0.len() {
            assert(visited0[w] == q);
        } else if w == visited0.len() {
            assert(q == p);
        } else {
            assert(cells_dec(visited0, x, left, y)[w - visited0.len() - 1] == q);
        }
    }
    if visited0.contains(q) {
        let w = choose|w: int| 0 <= w < visited0.len() && visited0[w] == q;
        assert(grown[w] == q);
    }
}

/// During the rightward pass, a cell strictly right of everything marked
/// so far is in the grown visited list exactly when it was visited before
/// the step.
proof fn lemma_visited_equiv_inc(
    visited0: Seq<Point>,
    p: Point,
    q: Point,
    xd: int,
    left: int,
    xi: int,
    right: int,
    y: int,
)
    requires
        q.y == y,
        p.y == y,
        -1_100_000 <= y <= 1_100_000,
        q.x > p.x,
        q.x > right,
        xd < q.x,
        -2_000_000 <= left,
        -2_000_000 <= xd <= 2_000_000,
        -2_000_000 <= xi,
        right <= 2_000_000,
    ensures
        (visited0.push(p) + cells_dec(visited0, xd, left, y) + cells_inc(visited0, xi, right, y))
            .contains(q) == visited0.contains(q),
{
    lemma_cells_dec_range(visited0, xd, left, y);
    lemma_cells_inc_range(visited0, xi, right, y);
    let dec = cells_dec(visited0, xd, left, y);
    let inc = cells_inc(visited0, xi, right, y);
    let grown = visited0.push(p) + dec + inc;
    if grown.contains(q) {
        let w = choose|w: int| 0 <= w < grown.len() && grown[w] == q;
        if w < visited0.len() {
            assert(visited0[w] == q);
        } else if w == visited0.len() {
            assert(q == p);
        } else if w < visited0.len() + 1 + dec.len() {
            assert(dec[w - visited0.len() - 1] == q);
        } else {
            assert(inc[w - visited0.len() - 1 - dec.len()] == q);
        }
    }
    if visited0.contains(q) {
        let w = choose|w: int| 0 <= w < visited0.len() && visited0[w] == q;
        assert(grown[w] == q);
    }
}

/// Push the unvisited interior cells of one neighbor row as new seeds.
fn seed_neighbor_row(
    pts: &Vec<Point>,
    visited: &Vec<Point>,
    stack: &mut Vec<Point>,
    left: i32,
    right: i32,
    yrow: i32,
)
    requires
        poly_wf(pts@),
        stack_wf(old(stack)@),
        -1_000_001 <= left,
        right <= 1_000_001,
        -1_100_000 <= yrow <= 1_100_000,
    ensures
        stack_wf(final(stack)@),
        final(stack)@ == old(stack)@ + seeds_row(
            pts@,
            visited@,
            left as int,
            right as int,
            yrow as int,
        ),
{
    let mut dx = left;
    while dx <= right
        invariant
            poly_wf(pts@),
            stack_wf(stack@),
            -1_000_001 <= left,
            right <= 1_000_001,
            -1_100_000 <= yrow <= 1_100_000,
            left <= dx <= right + 1 || dx == left,
            stack@ == old(stack)@ + seeds_row(pts@, visited@, left as int, dx as int - 1, yrow as int),
        decreases right + 1 - dx,
    {
        let q = Point { x: dx, y: yrow };
        proof {
            lemma_seeds_row_split(pts@, visited@, left as int, dx as int, yrow as int);
        }
        if !contains_point(visited, q) && q.in_bounds() && crate::polygon::is_inside(pts, q) {
            stack.push(q);
            proof {
                assert(seeds_row(pts@, visited@, dx as int + 1, dx as int, yrow as int)
                    =~= Seq::<Point>::empty());
                assert(seeds_row(pts@, visited@, dx as int, dx as int, yrow as int) =~= seq![q]);
                assert(stack@ =~= old(stack)@ + seeds_row(
                    pts@,
                    visited@,
                    left as int,
                    dx as int,
                    yrow as int,
                ));
            }
        } else {
            proof {
                assert(seeds_row(pts@, visited@, dx as int + 1, dx as int, yrow as int)
                    =~= Seq::<Point>::empty());
                assert(seeds_row(pts@, visited@, dx as int, dx as int, yrow as int)
                    =~= Seq::<Point>::empty());
                assert(stack@ =~= old(stack)@ + seeds_row(
                    pts@,
                    visited@,
                    left as int,
                    dx as int,
                    yrow as int,
                ));
            }
        }
        dx = dx + 1;
    }
    proof {
        assert(stack@ =~= old(stack)@ + seeds_row(
            pts@,
            visited@,
            left as int,
            right as int,
            yrow as int,
        ));
    }
}

impl crate::polygon::Polygon {
    /// Fill algorithm IV, the span seed fill: flood from the centroid one
    /// whole horizontal span at a time, seeding only the rows above and
    /// below each span.
    pub fn fourth(&self) -> (g: SpanFill)
        requires
            self.wf(),
        ensures
            g.wf(),
            self.points().len() == 0 ==> g.remaining().len() == 0,
            self.points().len() >= 1 ==> g.remaining() == span_walk(
                self.points(),
                seq![crate::polygon::spec_centroid(self.points())],
                Seq::empty(),
                SEED_FILL_BUDGET as nat,
            ),
    {
        let pts = self.vertices().clone();
        if pts.len() == 0 {
            let g = SpanFill {
                pts,
                stack: Vec::new(),
                visited: Vec::new(),
                budget: SEED_FILL_BUDGET,
            };
            return g;
        }
        let seed = crate::polygon::find_centroid(&pts);
        let mut stack: Vec<Point> = Vec::new();
        stack.push(seed);
        let g = SpanFill { pts, stack, visited: Vec::new(), budget: SEED_FILL_BUDGET };
        proof {
            assert(g.stack@ =~= seq![crate::polygon::spec_centroid(self.points())]);
            assert(g.visited@ =~= Seq::<Point>::empty());
        }
        g
    }
}

/// Fill algorithm agreement: on the same polygon, the ordered-edge-list
/// fill and the active-edge-list fill produce identical batch sequences,
/// since each is proved equal to `scanline_fill_batches`.
pub proof fn lemma_fill_agreement(
    g1: ScanFill,
    g2: ActiveFill,
    pts: Seq<Point>,
)
    requires
        g1.remaining() == scanline_fill_batches(pts),
        g2.remaining() == scanline_fill_batches(pts),
    ensures
        g1.remaining() == g2.remaining(),
{
}

} // verus!
