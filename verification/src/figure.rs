//! Figures: the result of running one algorithm, owning its accumulated
//! samples and, while stepping is still possible, its resumable generator.
//! The figure kinds form a closed sum type; not every kind supports every
//! operation.

use vstd::prelude::*;

use crate::fill::ActiveFill;
use crate::fill::ScanFill;
use crate::fill::SeedFill;
use crate::fill::SpanFill;
use crate::gen::PixelSource;
use crate::geometry::Point;
use crate::lines::BresenhamLine;
use crate::lines::DdaLine;
use crate::lines::WuLine;
use crate::pixel::Pixel;
use crate::second_order_lines::CircleGen;
use crate::second_order_lines::EllipseGen;
use crate::second_order_lines::HyperbolaGen;
use crate::second_order_lines::ParabolaGen;

verus! {

/// The generator still attached to a raster figure.
pub enum RasterSource {
    Dda(DdaLine),
    Bresenham(BresenhamLine),
    Wu(WuLine),
    Circle(CircleGen),
    Ellipse(EllipseGen),
    Parabola(ParabolaGen),
    Hyperbola(HyperbolaGen),
    ScanFill(ScanFill),
    ActiveFill(ActiveFill),
    SeedFill(SeedFill),
    SpanFill(SpanFill),
}

impl PixelSource for RasterSource {
    /// Well-formedness of the wrapped generator.
    open spec fn wf(&self) -> bool {
        match self {
            RasterSource::Dda(g) => g.wf(),
            RasterSource::Bresenham(g) => g.wf(),
            RasterSource::Wu(g) => g.wf(),
            RasterSource::Circle(g) => g.wf(),
            RasterSource::Ellipse(g) => g.wf(),
            RasterSource::Parabola(g) => g.wf(),
            RasterSource::Hyperbola(g) => g.wf(),
            RasterSource::ScanFill(g) => g.wf(),
            RasterSource::ActiveFill(g) => g.wf(),
            RasterSource::SeedFill(g) => g.wf(),
            RasterSource::SpanFill(g) => g.wf(),
        }
    }

    /// The batches the wrapped generator has yet to yield.
    open spec fn remaining(&self) -> Seq<Seq<Pixel>> {
        match self {
            RasterSource::Dda(g) => g.remaining(),
            RasterSource::Bresenham(g) => g.remaining(),
            RasterSource::Wu(g) => g.remaining(),
            RasterSource::Circle(g) => g.remaining(),
            RasterSource::Ellipse(g) => g.remaining(),
            RasterSource::Parabola(g) => g.remaining(),
            RasterSource::Hyperbola(g) => g.remaining(),
            RasterSource::ScanFill(g) => g.remaining(),
            RasterSource::ActiveFill(g) => g.remaining(),
            RasterSource::SeedFill(g) => g.remaining(),
            RasterSource::SpanFill(g) => g.remaining(),
        }
    }

    /// Pull one batch from the wrapped generator.
    fn step(&mut self) -> (r: Option<Vec<Pixel>>) {
        match self {
            RasterSource::Dda(g) => g.step(),
            RasterSource::Bresenham(g) => g.step(),
            RasterSource::Wu(g) => g.step(),
            RasterSource::Circle(g) => g.step(),
            RasterSource::Ellipse(g) => g.step(),
            RasterSource::Parabola(g) => g.step(),
            RasterSource::Hyperbola(g) => g.step(),
            RasterSource::ScanFill(g) => g.step(),
            RasterSource::ActiveFill(g) => g.step(),
            RasterSource::SeedFill(g) => g.step(),
            RasterSource::SpanFill(g) => g.step(),
        }
    }
}

/// A figure whose samples come from a resumable rasterizer: a line, a
/// conic, or a polygon fill overlay, together with its debug-grid
/// alignment offset.
pub struct RasterFigure {
    points: Vec<Pixel>,
    source: RasterSource,
    debug_offset: Point,
}

impl RasterFigure {
    pub closed spec fn wf(&self) -> bool {
        self.source.wf()
    }

    pub closed spec fn samples(&self) -> Seq<Pixel> {
        self.points@
    }

    pub closed spec fn remaining(&self) -> Seq<Seq<Pixel>> {
        self.source.remaining()
    }

    pub closed spec fn offset(&self) -> Point {
        self.debug_offset
    }

    /// Attach a fresh generator; no samples are cached yet.
    pub fn new(source: RasterSource, offset: Point) -> (f: RasterFigure)
        requires
            source.wf(),
        ensures
            f.wf(),
            f.samples().len() == 0,
            f.remaining() == source.remaining(),
            f.offset() == offset,
    {
        RasterFigure { points: Vec::new(), source, debug_offset: offset }
    }

    /// Pull one batch into the sample cache; false once exhausted.
    pub fn update_frame(&mut self) -> (more: bool)
        requires
            old(self).wf(),
        ensures
            final(self).wf(),
            final(self).offset() == old(self).offset(),
            if more {
                &&& old(self).remaining().len() > 0
                &&& final(self).samples() == old(self).samples() + old(self).remaining()[0]
                &&& final(self).remaining() == old(self).remaining().skip(1)
            } else {
                &&& old(self).remaining().len() == 0
                &&& final(self).samples() == old(self).samples()
                &&& final(self).remaining() == old(self).remaining()
            },
    {
        match self.source.step() {
            Some(batch) => {
                let mut b = batch;
                self.points.append(&mut b);
                true
            },
            None => false,
        }
    }

    /// Pull the generator to exhaustion into the sample cache.
    pub fn evaluate(&mut self)
        requires
            old(self).wf(),
        ensures
            final(self).wf(),
            final(self).offset() == old(self).offset(),
            final(self).remaining().len() == 0,
            final(self).samples() == old(self).samples() + old(self).remaining().flatten(),
    {
        let mut tail = crate::gen::drain(&mut self.source);
        self.points.append(&mut tail);
    }

    /// The accumulated samples.
    pub fn get_pixels(&self) -> (v: &Vec<Pixel>)
        ensures
            v@ == self.samples(),
    {
        &self.points
    }

    /// The debug-grid alignment offset.
    pub fn get_offset(&self) -> (p: Point)
        ensures
            p == self.offset(),
    {
        self.debug_offset
    }
}

/// The hit radius for grabbing a curve's control point.
pub const CONTROL_POINT_RADIUS: i64 = 3;

/// The hit threshold for selecting a curve by its polyline.
pub const CURVE_HIT_THRESHOLD: i64 = 3;

/// A parametric curve figure: four control points, a basis tag, the
/// selection state, and the sample cache, regenerated whenever a control
/// point moves.
pub struct CurveFigure {
    control_points: Vec<Point>,
    points: Vec<Pixel>,
    curve_type: crate::parameters::CurveType,
    selected: bool,
    selected_point: Option<usize>,
}

/// The samples of a four-point curve under the given basis.
pub open spec fn curve_samples(
    curve_type: crate::parameters::CurveType,
    pts: Seq<Point>,
) -> Seq<Pixel> {
    match curve_type {
        crate::parameters::CurveType::Hermite => crate::curves::hermite_samples(
            pts[0],
            pts[1],
            pts[2],
            pts[3],
        ),
        crate::parameters::CurveType::Bezier => crate::curves::bezier_samples(
            pts[0],
            pts[1],
            pts[2],
            pts[3],
        ),
        crate::parameters::CurveType::BSpline => crate::curves::bspline_samples(pts),
    }
}

impl CurveFigure {
    pub closed spec fn controls(&self) -> Seq<Point> {
        self.control_points@
    }

    pub closed spec fn samples(&self) -> Seq<Pixel> {
        self.points@
    }

    pub closed spec fn kind(&self) -> crate::parameters::CurveType {
        self.curve_type
    }

    pub closed spec fn is_selected(&self) -> bool {
        self.selected
    }

    pub closed spec fn active_point(&self) -> Option<usize> {
        self.selected_point
    }

    pub open spec fn wf(&self) -> bool {
        &&& self.controls().len() == 4
        &&& forall|i: int| 0 <= i < 4 ==> (#[trigger] self.controls()[i]).spec_in_bounds()
        &&& match self.active_point() {
            Option::Some(i) => i < 4,
            Option::None => true,
        }
    }

    /// Build a curve from its four control points and sample it.
    pub fn new(control_points: Vec<Point>, curve_type: crate::parameters::CurveType) -> (f:
        CurveFigure)
        requires
            control_points@.len() == 4,
            forall|i: int| 0 <= i < 4 ==> (#[trigger] control_points@[i]).spec_in_bounds(),
        ensures
            f.wf(),
            f.controls() == control_points@,
            f.kind() == curve_type,
            !f.is_selected(),
            f.active_point() is None,
            f.samples() == curve_samples(curve_type, control_points@),
    {
        let mut f = CurveFigure {
            control_points,
            points: Vec::new(),
            curve_type,
            selected: false,
            selected_point: None,
        };
        f.update_render();
        f
    }

    /// Regenerate the sample cache from the control points.
    fn update_render(&mut self)
        requires
            old(self).wf(),
        ensures
            final(self).wf(),
            final(self).controls() == old(self).controls(),
            final(self).kind() == old(self).kind(),
            final(self).is_selected() == old(self).is_selected(),
            final(self).active_point() == old(self).active_point(),
            final(self).samples() == curve_samples(old(self).kind(), old(self).controls()),
    {
        let mut fresh: Vec<Pixel> = Vec::new();
        let p0 = self.control_points[0];
        let p1 = self.control_points[1];
        let p2 = self.control_points[2];
        let p3 = self.control_points[3];
        match self.curve_type {
            crate::parameters::CurveType::Hermite => {
                crate::curves::generate_hermite_curve(p0, p1, p2, p3, &mut fresh);
            },
            crate::parameters::CurveType::Bezier => {
                crate::curves::generate_bezier_curve(p0, p1, p2, p3, &mut fresh);
            },
            crate::parameters::CurveType::BSpline => {
                crate::curves::generate_bspline_curve(&self.control_points, &mut fresh);
            },
        }
        self.points = fresh;
        proof {
            assert(self.samples() =~= curve_samples(self.kind(), self.controls()));
        }
    }

    /// Mark the curve selected.
    pub fn select(&mut self)
        requires
            old(self).wf(),
        ensures
            final(self).wf(),
            final(self).is_selected(),
            final(self).controls() == old(self).controls(),
    {
        self.selected = true;
    }

    /// Deselect the curve and drop the active control point.
    pub fn deselect(&mut self)
        requires
            old(self).wf(),
        ensures
            final(self).wf(),
            !final(self).is_selected(),
            final(self).active_point() is None,
            final(self).controls() == old(self).controls(),
            final(self).kind() == old(self).kind(),
            final(self).samples() == old(self).samples(),
    {
        self.selected = false;
        self.selected_point = None;
    }

    /// The control points.
    pub fn control_points(&self) -> (v: &Vec<Point>)
        ensures
            v@ == self.controls(),
    {
        &self.control_points
    }

    /// The cached curve samples.
    pub fn get_pixels(&self) -> (v: &Vec<Pixel>)
        ensures
            v@ == self.samples(),
    {
        &self.points
    }

    /// Whether a click at `pos` hits the rendered polyline: within the
    /// hit threshold of some sample segment whose endpoints are on the
    /// canvas.
    pub fn hit_test(&self, pos: Point) -> (r: bool)
        requires
            self.wf(),
            pos.spec_in_bounds(),
        ensures
            r == exists|i: int|
                0 <= i && i + 1 < self.samples().len() && (#[trigger] self.samples()[i]).pos.spec_in_bounds()
                    && self.samples()[i + 1].pos.spec_in_bounds() && crate::polygon::seg_dist_le(
                    self.samples()[i].pos,
                    self.samples()[i + 1].pos,
                    pos,
                    CURVE_HIT_THRESHOLD as int,
                ),
    {
        let n = self.points.len();
        if n < 2 {
            return false;
        }
        let mut i: usize = 0;
        while i + 1 < n
            invariant
                self.wf(),
                pos.spec_in_bounds(),
                n == self.samples().len(),
                0 <= i < n,
                forall|k: int|
                    0 <= k < i && k + 1 < n ==> !((#[trigger] self.samples()[k]).pos.spec_in_bounds()
                        && self.samples()[k + 1].pos.spec_in_bounds()
                        && crate::polygon::seg_dist_le(
                        self.samples()[k].pos,
                        self.samples()[k + 1].pos,
                        pos,
                        CURVE_HIT_THRESHOLD as int,
                    )),
            decreases n - i,
        {
            let a = self.points[i].pos;
            let b = self.points[i + 1].pos;
            if a.in_bounds() && b.in_bounds() {
                if crate::polygon::seg_within(a, b, pos, CURVE_HIT_THRESHOLD) {
                    return true;
                }
            }
            i = i + 1;
        }
        false
    }

    /// The index of the first control point within the grab radius of
    /// `pos`, if any.
    pub fn hit_test_control_point(&self, pos: Point) -> (r: Option<usize>)
        requires
            self.wf(),
            pos.spec_in_bounds(),
        ensures
            match r {
                Some(i) => i < 4 && crate::geometry::spec_dist_sq(self.controls()[i as int], pos)
                    <= CONTROL_POINT_RADIUS * CONTROL_POINT_RADIUS && forall|k: int|
                    0 <= k < i ==> crate::geometry::spec_dist_sq(#[trigger] self.controls()[k], pos)
                        > CONTROL_POINT_RADIUS * CONTROL_POINT_RADIUS,
                None => forall|i: int|
                    0 <= i < 4 ==> crate::geometry::spec_dist_sq(
                        #[trigger] self.controls()[i],
                        pos,
                    ) > CONTROL_POINT_RADIUS * CONTROL_POINT_RADIUS,
            },
    {
        let mut i: usize = 0;
        while i < 4
            invariant
                self.wf(),
                pos.spec_in_bounds(),
                0 <= i <= 4,
                forall|k: int|
                    0 <= k < i ==> crate::geometry::spec_dist_sq(
                        #[trigger] self.controls()[k],
                        pos,
                    ) > CONTROL_POINT_RADIUS * CONTROL_POINT_RADIUS,
            decreases 4 - i,
        {
            let d = crate::geometry::dist_sq(self.control_points[i], pos);
            if d <= CONTROL_POINT_RADIUS * CONTROL_POINT_RADIUS {
                return Some(i);
            }
            i = i + 1;
        }
        None
    }

    /// Toggle which control point is active for subsequent drags.
    pub fn toggle_point(&mut self, index: usize)
        requires
            old(self).wf(),
            index < 4,
        ensures
            final(self).wf(),
            final(self).controls() == old(self).controls(),
            final(self).active_point() == if old(self).active_point() == Option::Some(index) {
                Option::<usize>::None
            } else {
                Option::Some(index)
            },
    {
        self.selected_point = match self.selected_point {
            Some(selected) => if selected == index {
                None
            } else {
                Some(index)
            },
            None => Some(index),
        };
    }

    /// Drag the active control point to `pos` and resample; false when no
    /// point is active.
    pub fn move_point(&mut self, pos: Point) -> (moved: bool)
        requires
            old(self).wf(),
            pos.spec_in_bounds(),
        ensures
            final(self).wf(),
            final(self).kind() == old(self).kind(),
            final(self).is_selected() == old(self).is_selected(),
            final(self).active_point() == old(self).active_point(),
            match old(self).active_point() {
                Option::Some(i) => {
                    &&& moved
                    &&& final(self).controls() == old(self).controls().update(i as int, pos)
                    &&& final(self).samples() == curve_samples(
                        old(self).kind(),
                        final(self).controls(),
                    )
                },
                Option::None => {
                    &&& !moved
                    &&& final(self).controls() == old(self).controls()
                    &&& final(self).samples() == old(self).samples()
                },
            },
    {
        match self.selected_point {
            Some(index) => {
                self.control_points.set(index, pos);
                self.update_render();
                true
            },
            None => false,
        }
    }
}

/// Any figure of the drawing: a raster figure with its generator, a
/// curve, a polygon, a triangulation, or a Voronoi diagram.  The 3D mesh
/// object is floating-point linear algebra and lives with the embedding
/// application.
pub enum Figure {
    Raster(RasterFigure),
    Curve(CurveFigure),
    Polygon(crate::polygon::Polygon),
    Delone(crate::delone::Delone),
    Voronoi(crate::voronoi::Voronoi),
}

/// Whether a figure is in the deselected state; figure kinds without a
/// selection are always deselected.
pub open spec fn figure_deselected(f: Figure) -> bool {
    match f {
        Figure::Curve(c) => !c.is_selected() && c.active_point() is None,
        Figure::Polygon(p) => !p.is_selected(),
        _ => true,
    }
}

/// Whether two figures hold the same content, selection state aside.
pub open spec fn same_figure_content(a: Figure, b: Figure) -> bool {
    match (a, b) {
        (Figure::Raster(x), Figure::Raster(y)) => x == y,
        (Figure::Curve(x), Figure::Curve(y)) => x.controls() == y.controls() && x.kind()
            == y.kind() && x.samples() == y.samples(),
        (Figure::Polygon(x), Figure::Polygon(y)) => x.points() == y.points() && x.normal_seq()
            == y.normal_seq() && x.intersections() == y.intersections(),
        (Figure::Delone(x), Figure::Delone(y)) => x.tris() == y.tris(),
        (Figure::Voronoi(x), Figure::Voronoi(y)) => x.segments() == y.segments(),
        _ => false,
    }
}

impl Figure {
    pub open spec fn wf(&self) -> bool {
        match self {
            Figure::Raster(f) => f.wf(),
            Figure::Curve(c) => c.wf(),
            Figure::Polygon(p) => p.wf(),
            Figure::Delone(d) => d.wf(),
            Figure::Voronoi(_) => true,
        }
    }

    /// Deselect the figure, if it supports selection; the figure's content
    /// is untouched.
    pub fn deselect(&mut self)
        requires
            old(self).wf(),
        ensures
            final(self).wf(),
            figure_deselected(*final(self)),
            same_figure_content(*old(self), *final(self)),
    {
        match self {
            Figure::Curve(c) => c.deselect(),
            Figure::Polygon(p) => p.deselect(),
            _ => {},
        }
    }
}

/// Whether an optional clicked point is within coordinate bounds.
pub open spec fn opt_in_bounds(p: Option<Point>) -> bool {
    match p {
        Option::Some(q) => q.spec_in_bounds(),
        Option::None => true,
    }
}

/// Build the line figure once both endpoints are clicked; its debug-grid
/// offset is the componentwise minimum of the endpoints.
pub fn line_figure(p: &crate::parameters::Line) -> (r: Option<RasterFigure>)
    requires
        opt_in_bounds(p.start),
        opt_in_bounds(p.end),
    ensures
        r is None <==> (p.start is None || p.end is None),
        match r {
            Option::Some(f) => {
                let s = p.start->0;
                let e = p.end->0;
                &&& f.wf()
                &&& f.samples().len() == 0
                &&& f.offset() == (Point {
                    x: if s.x <= e.x {
                        s.x
                    } else {
                        e.x
                    },
                    y: if s.y <= e.y {
                        s.y
                    } else {
                        e.y
                    },
                })
                &&& f.remaining() == match p.line_type {
                    crate::parameters::LineType::First => crate::lines::dda_batches(s, e),
                    crate::parameters::LineType::Second => crate::lines::bresenham_batches(s, e),
                    crate::parameters::LineType::Third => crate::lines::wu_batches(s, e),
                }
            },
            Option::None => true,
        },
{
    match (p.start, p.end) {
        (Some(s), Some(e)) => {
            let offset = Point {
                x: if s.x <= e.x {
                    s.x
                } else {
                    e.x
                },
                y: if s.y <= e.y {
                    s.y
                } else {
                    e.y
                },
            };
            let source = match p.line_type {
                crate::parameters::LineType::First => RasterSource::Dda(
                    crate::lines::dda_line(s, e),
                ),
                crate::parameters::LineType::Second => RasterSource::Bresenham(
                    crate::lines::bresenham_line(s, e),
                ),
                crate::parameters::LineType::Third => RasterSource::Wu(
                    crate::lines::wu_line(s, e),
                ),
            };
            Some(RasterFigure::new(source, offset))
        },
        _ => None,
    }
}

/// Build the circle figure once both points are clicked; its offset is the
/// center shifted left and down by the radius.
pub fn circle_figure(p: &crate::parameters::Circle) -> (r: Option<RasterFigure>)
    requires
        opt_in_bounds(p.start),
        opt_in_bounds(p.end),
    ensures
        r is None <==> (p.start is None || p.end is None),
        match r {
            Option::Some(f) => {
                let s = p.start->0;
                let e = p.end->0;
                let radius = crate::second_order_lines::spec_isqrt(
                    crate::geometry::spec_dist_sq(s, e),
                );
                &&& f.wf()
                &&& f.samples().len() == 0
                &&& f.offset() == (Point { x: (s.x - radius) as i32, y: (s.y - radius) as i32 })
                &&& f.remaining() == crate::second_order_lines::circle_batches(s, radius)
            },
            Option::None => true,
        },
{
    match (p.start, p.end) {
        (Some(s), Some(e)) => {
            proof {
                crate::geometry::lemma_product_bound(e.x - s.x, e.x - s.x, 2_000_000);
                crate::geometry::lemma_product_bound(e.y - s.y, e.y - s.y, 2_000_000);
                assert(0 <= (e.x - s.x) * (e.x - s.x) && 0 <= (e.y - s.y) * (e.y - s.y))
                    by (nonlinear_arith);
            }
            let d2 = crate::geometry::dist_sq(s, e);
            let radius = crate::second_order_lines::isqrt(d2);
            proof {
                assert(radius <= 3_000_000) by (nonlinear_arith)
                    requires
                        radius * radius <= d2,
                        d2 <= 8_000_000_000_000,
                        0 <= radius,
                ;
            }
            let offset = Point { x: (s.x as i64 - radius) as i32, y: (s.y as i64 - radius) as i32 };
            let g = crate::second_order_lines::paint_circle(s, e);
            Some(RasterFigure::new(RasterSource::Circle(g), offset))
        },
        _ => None,
    }
}

/// Build the ellipse figure once the center is clicked; its offset is the
/// center shifted by the semi-axes.
pub fn ellips_figure(p: &crate::parameters::Ellips) -> (r: Option<RasterFigure>)
    requires
        opt_in_bounds(p.start),
        1 <= p.a <= crate::second_order_lines::AXIS_LIMIT,
        1 <= p.b <= crate::second_order_lines::AXIS_LIMIT,
    ensures
        r is None <==> p.start is None,
        match r {
            Option::Some(f) => {
                let c = p.start->0;
                &&& f.wf()
                &&& f.samples().len() == 0
                &&& f.offset() == (Point { x: (c.x - p.a) as i32, y: (c.y - p.b) as i32 })
                &&& f.remaining() == crate::second_order_lines::ellipse_batches(
                    c,
                    p.a as int,
                    p.b as int,
                )
            },
            Option::None => true,
        },
{
    match p.start {
        Some(c) => {
            let offset = Point { x: (c.x as i64 - p.a) as i32, y: (c.y as i64 - p.b) as i32 };
            let g = crate::second_order_lines::paint_ellips(c, p.a, p.b);
            Some(RasterFigure::new(RasterSource::Ellipse(g), offset))
        },
        None => None,
    }
}

/// Build the parabola figure once the vertex is clicked; its offset is the
/// vertex shifted by the iteration cap on both axes.
pub fn parabola_figure(p: &crate::parameters::Parabola) -> (r: Option<RasterFigure>)
    requires
        opt_in_bounds(p.start),
        0 <= p.p <= crate::second_order_lines::AXIS_LIMIT,
        p.max_iterations <= crate::second_order_lines::ITER_LIMIT,
    ensures
        r is None <==> p.start is None,
        match r {
            Option::Some(f) => {
                let c = p.start->0;
                &&& f.wf()
                &&& f.samples().len() == 0
                &&& f.offset() == (Point {
                    x: (c.x - p.max_iterations) as i32,
                    y: (c.y - p.max_iterations) as i32,
                })
                &&& f.remaining() == crate::second_order_lines::parabola_batches(
                    c,
                    p.p as int,
                    p.max_iterations as nat,
                )
            },
            Option::None => true,
        },
{
    match p.start {
        Some(c) => {
            let it = p.max_iterations as i64;
            let offset = Point { x: (c.x as i64 - it) as i32, y: (c.y as i64 - it) as i32 };
            let g = crate::second_order_lines::paint_parabola(c, p.p, p.max_iterations);
            Some(RasterFigure::new(RasterSource::Parabola(g), offset))
        },
        None => None,
    }
}

/// Build the hyperbola figure once the center is clicked; its offset is
/// the center shifted by the iteration cap, twice the first semi-axis
/// further on x.
pub fn hyperbola_figure(p: &crate::parameters::Hyperbola) -> (r: Option<RasterFigure>)
    requires
        opt_in_bounds(p.start),
        0 <= p.a <= crate::second_order_lines::AXIS_LIMIT,
        0 <= p.b <= crate::second_order_lines::AXIS_LIMIT,
        p.max_iterations <= crate::second_order_lines::ITER_LIMIT,
    ensures
        r is None <==> p.start is None,
        match r {
            Option::Some(f) => {
                let c = p.start->0;
                &&& f.wf()
                &&& f.samples().len() == 0
                &&& f.offset() == (Point {
                    x: (c.x - p.max_iterations - 2 * p.a) as i32,
                    y: (c.y - p.max_iterations) as i32,
                })
                &&& f.remaining() == crate::second_order_lines::hyperbola_batches(
                    c,
                    p.a as int,
                    p.b as int,
                    p.max_iterations as nat,
                )
            },
            Option::None => true,
        },
{
    match p.start {
        Some(c) => {
            let it = p.max_iterations as i64;
            let offset = Point {
                x: (c.x as i64 - it - 2 * p.a) as i32,
                y: (c.y as i64 - it) as i32,
            };
            let g = crate::second_order_lines::paint_hyperbola(c, p.a, p.b, p.max_iterations);
            Some(RasterFigure::new(RasterSource::Hyperbola(g), offset))
        },
        None => None,
    }
}

/// Build the curve figure once exactly four control points are placed.
pub fn curve_figure(p: &crate::parameters::Curve) -> (r: Option<CurveFigure>)
    requires
        forall|i: int|
            0 <= i < p.control_points@.len() ==> (#[trigger] p.control_points@[i]).spec_in_bounds(),
    ensures
        r is None <==> p.control_points@.len() != 4,
        match r {
            Option::Some(f) => {
                &&& f.wf()
                &&& f.controls() == p.control_points@
                &&& f.kind() == p.curve_type
                &&& !f.is_selected()
                &&& f.samples() == curve_samples(p.curve_type, p.control_points@)
            },
            Option::None => true,
        },
{
    if p.control_points.len() == 4 {
        Some(CurveFigure::new(p.control_points.clone(), p.curve_type))
    } else {
        None
    }
}

/// Build the polygon figure from the placed points.
pub fn polygon_figure(p: &crate::parameters::Polygon) -> (r: crate::polygon::Polygon)
    requires
        crate::polygon::poly_wf(p.points@),
    ensures
        r.wf(),
        r.points() == p.points@,
        !r.is_selected(),
{
    crate::polygon::Polygon::new(p.points.clone())
}

/// Build the triangulation figure from the placed points.
pub fn delone_figure(p: &crate::parameters::Delone) -> (r: crate::delone::Delone)
    requires
        forall|i: int| 0 <= i < p.points@.len() ==> (#[trigger] p.points@[i]).spec_in_bounds(),
    ensures
        r.wf(),
        r.tris() == crate::delone::bowyer_all(p.points@, p.points@.len() as int).filter(
            crate::delone::non_super_pred(),
        ),
{
    crate::delone::Delone::new(&p.points)
}

/// Build the Voronoi figure from the placed points.
pub fn voronoi_figure(p: &crate::parameters::Voronoi) -> (r: crate::voronoi::Voronoi)
    requires
        forall|i: int| 0 <= i < p.points@.len() ==> (#[trigger] p.points@[i]).spec_in_bounds(),
    ensures
        ({
            let tris = crate::delone::bowyer_all(p.points@, p.points@.len() as int).filter(
                crate::delone::non_super_pred(),
            );
            r.segments() == crate::voronoi::voronoi_rows(tris, tris.len() as int)
        }),
{
    crate::voronoi::Voronoi::new(&p.points)
}

/// Whether a parameter set is within the bounds its figure constructor
/// needs.
pub open spec fn params_generatable(s: crate::parameters::ParameterState) -> bool {
    match s {
        crate::parameters::ParameterState::Line(p) => opt_in_bounds(p.start) && opt_in_bounds(
            p.end,
        ),
        crate::parameters::ParameterState::Circle(p) => opt_in_bounds(p.start) && opt_in_bounds(
            p.end,
        ),
        crate::parameters::ParameterState::Ellips(p) => opt_in_bounds(p.start) && 1 <= p.a
            <= crate::second_order_lines::AXIS_LIMIT && 1 <= p.b
            <= crate::second_order_lines::AXIS_LIMIT,
        crate::parameters::ParameterState::Parabola(p) => opt_in_bounds(p.start) && 0 <= p.p
            <= crate::second_order_lines::AXIS_LIMIT && p.max_iterations
            <= crate::second_order_lines::ITER_LIMIT,
        crate::parameters::ParameterState::Hyperbola(p) => opt_in_bounds(p.start) && 0 <= p.a
            <= crate::second_order_lines::AXIS_LIMIT && 0 <= p.b
            <= crate::second_order_lines::AXIS_LIMIT && p.max_iterations
            <= crate::second_order_lines::ITER_LIMIT,
        crate::parameters::ParameterState::Curve(p) => forall|i: int|
            0 <= i < p.control_points@.len() ==> (#[trigger] p.control_points@[i]).spec_in_bounds(),
        crate::parameters::ParameterState::Polygon(p) => crate::polygon::poly_wf(p.points@),
        crate::parameters::ParameterState::Delone(p) => forall|i: int|
            0 <= i < p.points@.len() ==> (#[trigger] p.points@[i]).spec_in_bounds(),
        crate::parameters::ParameterState::Voronoi(p) => forall|i: int|
            0 <= i < p.points@.len() ==> (#[trigger] p.points@[i]).spec_in_bounds(),
    }
}

/// Build the figure of whichever kind the parameter set describes;
/// `None` exactly when the parameters are still incomplete.
pub fn generate_figure(state: &crate::parameters::ParameterState) -> (r: Option<Figure>)
    requires
        params_generatable(*state),
    ensures
        match *state {
            crate::parameters::ParameterState::Line(p) => r is None <==> (p.start is None
                || p.end is None),
            crate::parameters::ParameterState::Circle(p) => r is None <==> (p.start is None
                || p.end is None),
            crate::parameters::ParameterState::Ellips(p) => r is None <==> p.start is None,
            crate::parameters::ParameterState::Parabola(p) => r is None <==> p.start is None,
            crate::parameters::ParameterState::Hyperbola(p) => r is None <==> p.start is None,
            crate::parameters::ParameterState::Curve(p) => r is None
                <==> p.control_points@.len() != 4,
            _ => r is Some,
        },
        match r {
            Option::Some(f) => f.wf(),
            Option::None => true,
        },
{
    match state {
        crate::parameters::ParameterState::Line(p) => match line_figure(p) {
            Some(f) => Some(Figure::Raster(f)),
            None => None,
        },
        crate::parameters::ParameterState::Circle(p) => match circle_figure(p) {
            Some(f) => Some(Figure::Raster(f)),
            None => None,
        },
        crate::parameters::ParameterState::Ellips(p) => match ellips_figure(p) {
            Some(f) => Some(Figure::Raster(f)),
            None => None,
        },
        crate::parameters::ParameterState::Parabola(p) => match parabola_figure(p) {
            Some(f) => Some(Figure::Raster(f)),
            None => None,
        },
        crate::parameters::ParameterState::Hyperbola(p) => match hyperbola_figure(p) {
            Some(f) => Some(Figure::Raster(f)),
            None => None,
        },
        crate::parameters::ParameterState::Curve(p) => match curve_figure(p) {
            Some(f) => Some(Figure::Curve(f)),
            None => None,
        },
        crate::parameters::ParameterState::Polygon(p) => Some(
            Figure::Polygon(polygon_figure(p)),
        ),
        crate::parameters::ParameterState::Delone(p) => Some(Figure::Delone(delone_figure(p))),
        crate::parameters::ParameterState::Voronoi(p) => Some(
            Figure::Voronoi(voronoi_figure(p)),
        ),
    }
}

} // verus!
