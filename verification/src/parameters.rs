//! Parameter accumulation and the interaction state machine: which
//! algorithm is selected, which figure parameters are still being
//! collected click by click, and which figure is mid-edit.

use vstd::prelude::*;

use crate::figure::Figure;
use crate::geometry::Point;

verus! {

/// Which line rasterizer a line parameter set will use.
#[derive(Clone, Copy, PartialEq, Eq, Structural, Debug)]
pub enum LineType {
    First,
    Second,
    Third,
}

/// Which basis a curve uses.
#[derive(Clone, Copy, PartialEq, Eq, Structural, Debug)]
pub enum CurveType {
    Hermite,
    Bezier,
    BSpline,
}

/// Parameters of a line figure: two clicked endpoints.
pub struct Line {
    pub start: Option<Point>,
    pub end: Option<Point>,
    pub line_type: LineType,
}

impl Line {
    pub fn new(line_type: LineType) -> (p: Line)
        ensures
            p.start is None,
            p.end is None,
            p.line_type == line_type,
    {
        Line { start: None, end: None, line_type }
    }

    /// Record one click; complete once both endpoints are set.
    pub fn handle_click(&mut self, pos: Point) -> (complete: bool)
        ensures
            final(self).line_type == old(self).line_type,
            old(self).start is None ==> final(self).start == Option::Some(pos)
                && final(self).end == old(self).end && !complete,
            old(self).start is Some && old(self).end is None ==> final(self).start == old(self).start
                && final(self).end == Option::Some(pos) && complete,
            old(self).start is Some && old(self).end is Some ==> *final(self) == *old(self)
                && !complete,
    {
        if self.start.is_none() {
            self.start = Some(pos);
            false
        } else if self.end.is_none() {
            self.end = Some(pos);
            true
        } else {
            false
        }
    }
}

/// Parameters of a circle figure: center and a point on the circle.
pub struct Circle {
    pub start: Option<Point>,
    pub end: Option<Point>,
}

impl Circle {
    pub fn new() -> (p: Circle)
        ensures
            p.start is None,
            p.end is None,
    {
        Circle { start: None, end: None }
    }

    /// Record one click; complete once both points are set.
    pub fn handle_click(&mut self, pos: Point) -> (complete: bool)
        ensures
            old(self).start is None ==> final(self).start == Option::Some(pos)
                && final(self).end == old(self).end && !complete,
            old(self).start is Some && old(self).end is None ==> final(self).start == old(self).start
                && final(self).end == Option::Some(pos) && complete,
            old(self).start is Some && old(self).end is Some ==> *final(self) == *old(self)
                && !complete,
    {
        if self.start.is_none() {
            self.start = Some(pos);
            false
        } else if self.end.is_none() {
            self.end = Some(pos);
            true
        } else {
            false
        }
    }
}

/// Parameters of an ellipse: a clicked center and dialog-set semi-axes.
pub struct Ellips {
    pub start: Option<Point>,
    pub a: i64,
    pub b: i64,
}

impl Ellips {
    pub fn new() -> (p: Ellips)
        ensures
            p.start is None,
            p.a == 15,
            p.b == 10,
    {
        Ellips { start: None, a: 15, b: 10 }
    }

    /// Record the center click; completion comes from the dialog instead.
    pub fn handle_click(&mut self, pos: Point) -> (complete: bool)
        ensures
            !complete,
            final(self).a == old(self).a && final(self).b == old(self).b,
            old(self).start is None ==> final(self).start == Option::Some(pos),
            old(self).start is Some ==> final(self).start == old(self).start,
    {
        if self.start.is_none() {
            self.start = Some(pos);
        }
        false
    }
}

/// Parameters of a parabola: a clicked vertex, a focal parameter, and the
/// iteration cap.
pub struct Parabola {
    pub start: Option<Point>,
    pub p: i64,
    pub max_iterations: u32,
}

impl Parabola {
    pub fn new() -> (p: Parabola)
        ensures
            p.start is None,
            p.p == 15,
            p.max_iterations == 100,
    {
        Parabola { start: None, p: 15, max_iterations: 100 }
    }

    pub fn handle_click(&mut self, pos: Point) -> (complete: bool)
        ensures
            !complete,
            final(self).p == old(self).p,
            final(self).max_iterations == old(self).max_iterations,
            old(self).start is None ==> final(self).start == Option::Some(pos),
            old(self).start is Some ==> final(self).start == old(self).start,
    {
        if self.start.is_none() {
            self.start = Some(pos);
        }
        false
    }
}

/// Parameters of a hyperbola: a clicked center, semi-axes, and the
/// iteration cap.
pub struct Hyperbola {
    pub start: Option<Point>,
    pub a: i64,
    pub b: i64,
    pub max_iterations: u32,
}

impl Hyperbola {
    pub fn new() -> (p: Hyperbola)
        ensures
            p.start is None,
            p.a == 15,
            p.b == 10,
            p.max_iterations == 100,
    {
        Hyperbola { start: None, a: 15, b: 10, max_iterations: 100 }
    }

    pub fn handle_click(&mut self, pos: Point) -> (complete: bool)
        ensures
            !complete,
            final(self).a == old(self).a,
            final(self).b == old(self).b,
            final(self).max_iterations == old(self).max_iterations,
            old(self).start is None ==> final(self).start == Option::Some(pos),
            old(self).start is Some ==> final(self).start == old(self).start,
    {
        if self.start.is_none() {
            self.start = Some(pos);
        }
        false
    }
}

/// Parameters of a curve: exactly four control points are collected.
pub struct Curve {
    pub control_points: Vec<Point>,
    pub curve_type: CurveType,
}

impl Curve {
    pub fn new(curve_type: CurveType) -> (p: Curve)
        ensures
            p.control_points@.len() == 0,
            p.curve_type == curve_type,
    {
        Curve { control_points: Vec::new(), curve_type }
    }

    /// Record one control point; complete at the fourth.
    pub fn handle_click(&mut self, pos: Point) -> (complete: bool)
        requires
            old(self).control_points@.len() < 100,
        ensures
            final(self).curve_type == old(self).curve_type,
            final(self).control_points@ == old(self).control_points@.push(pos),
            complete == (final(self).control_points@.len() == 4),
    {
        self.control_points.push(pos);
        self.control_points.len() == 4
    }
}

/// Parameters of a polygon, triangulation, or Voronoi figure: a growing
/// point list completed by the keyboard.
pub struct Polygon {
    pub points: Vec<Point>,
}

impl Polygon {
    pub fn new() -> (p: Polygon)
        ensures
            p.points@.len() == 0,
    {
        Polygon { points: Vec::new() }
    }

    pub fn handle_click(&mut self, pos: Point) -> (complete: bool)
        requires
            old(self).points@.len() < 100_000,
        ensures
            !complete,
            final(self).points@ == old(self).points@.push(pos),
    {
        self.points.push(pos);
        false
    }

    /// Whether pressing the completion key finishes the figure: it does
    /// once at least two points are placed.
    pub fn handle_key(&self, enter_pressed: bool) -> (complete: bool)
        ensures
            complete == (enter_pressed && self.points@.len() > 1),
    {
        enter_pressed && self.points.len() > 1
    }
}

/// Parameters of a triangulated point set.
pub struct Delone {
    pub points: Vec<Point>,
}

impl Delone {
    pub fn new() -> (p: Delone)
        ensures
            p.points@.len() == 0,
    {
        Delone { points: Vec::new() }
    }

    pub fn handle_click(&mut self, pos: Point) -> (complete: bool)
        requires
            old(self).points@.len() < 100_000,
        ensures
            !complete,
            final(self).points@ == old(self).points@.push(pos),
    {
        self.points.push(pos);
        false
    }

    pub fn handle_key(&self, enter_pressed: bool) -> (complete: bool)
        ensures
            complete == (enter_pressed && self.points@.len() > 1),
    {
        enter_pressed && self.points.len() > 1
    }
}

/// Parameters of a Voronoi diagram.
pub struct Voronoi {
    pub points: Vec<Point>,
}

impl Voronoi {
    pub fn new() -> (p: Voronoi)
        ensures
            p.points@.len() == 0,
    {
        Voronoi { points: Vec::new() }
    }

    pub fn handle_click(&mut self, pos: Point) -> (complete: bool)
        requires
            old(self).points@.len() < 100_000,
        ensures
            !complete,
            final(self).points@ == old(self).points@.push(pos),
    {
        self.points.push(pos);
        false
    }

    pub fn handle_key(&self, enter_pressed: bool) -> (complete: bool)
        ensures
            complete == (enter_pressed && self.points@.len() > 1),
    {
        enter_pressed && self.points.len() > 1
    }
}

/// The in-flight parameter set of whichever figure kind is being placed.
pub enum ParameterState {
    Line(Line),
    Circle(Circle),
    Ellips(Ellips),
    Hyperbola(Hyperbola),
    Parabola(Parabola),
    Curve(Curve),
    Polygon(Polygon),
    Delone(Delone),
    Voronoi(Voronoi),
}

/// Whether another click can still be recorded.
pub open spec fn params_can_click(p: ParameterState) -> bool {
    match p {
        ParameterState::Curve(c) => c.control_points@.len() < 100,
        ParameterState::Polygon(c) => c.points@.len() < 100_000,
        ParameterState::Delone(c) => c.points@.len() < 100_000,
        ParameterState::Voronoi(c) => c.points@.len() < 100_000,
        _ => true,
    }
}

impl ParameterState {
    /// Route one canvas click to the active parameter set; true when the
    /// figure's parameters are complete.
    pub fn handle_click(&mut self, pos: Point) -> (complete: bool)
        requires
            params_can_click(*old(self)),
    {
        match self {
            ParameterState::Line(p) => p.handle_click(pos),
            ParameterState::Circle(p) => p.handle_click(pos),
            ParameterState::Ellips(p) => p.handle_click(pos),
            ParameterState::Hyperbola(p) => p.handle_click(pos),
            ParameterState::Parabola(p) => p.handle_click(pos),
            ParameterState::Curve(p) => p.handle_click(pos),
            ParameterState::Polygon(p) => p.handle_click(pos),
            ParameterState::Delone(p) => p.handle_click(pos),
            ParameterState::Voronoi(p) => p.handle_click(pos),
        }
    }

    /// Route a completion keypress; true when the figure is finished.
    pub fn handle_key(&self, enter_pressed: bool) -> (complete: bool)
        ensures
            complete ==> match self {
                ParameterState::Polygon(p) => enter_pressed && p.points@.len() > 1,
                ParameterState::Delone(p) => enter_pressed && p.points@.len() > 1,
                ParameterState::Voronoi(p) => enter_pressed && p.points@.len() > 1,
                _ => false,
            },
    {
        match self {
            ParameterState::Polygon(p) => p.handle_key(enter_pressed),
            ParameterState::Delone(p) => p.handle_key(enter_pressed),
            ParameterState::Voronoi(p) => p.handle_key(enter_pressed),
            _ => false,
        }
    }
}

/// Which sub-test of the polygon mode is pending.
#[derive(Clone, Copy, PartialEq, Eq, Structural, Debug)]
pub enum PolygonTest {
    Line(Option<Point>),
    Dot,
    Inactive,
}

/// The interaction mode: at most one figure is mid-edit at a time, and
/// switching modes deselects it.
#[derive(Clone, Copy, Debug)]
pub enum Mode {
    Idle,
    Debug,
    MoveControlPoints(Option<usize>),
    TransformObject(Option<usize>),
    PolygonOperations(Option<usize>, PolygonTest),
}

/// Mode equality compares the mode kind only, with edit payloads ignored;
/// two transform-object modes never compare equal.
pub open spec fn mode_eq(a: Mode, b: Mode) -> bool {
    match (a, b) {
        (Mode::Idle, Mode::Idle) => true,
        (Mode::Debug, Mode::Debug) => true,
        (Mode::MoveControlPoints(_), Mode::MoveControlPoints(_)) => true,
        (Mode::PolygonOperations(_, _), Mode::PolygonOperations(_, _)) => true,
        _ => false,
    }
}

impl PartialEq for Mode {
    fn eq(&self, other: &Mode) -> (r: bool)
        ensures
            r == mode_eq(*self, *other),
    {
        match (self, other) {
            (Mode::Idle, Mode::Idle) => true,
            (Mode::Debug, Mode::Debug) => true,
            (Mode::MoveControlPoints(_), Mode::MoveControlPoints(_)) => true,
            (Mode::PolygonOperations(_, _), Mode::PolygonOperations(_, _)) => true,
            _ => false,
        }
    }
}

impl vstd::std_specs::cmp::PartialEqSpecImpl for Mode {
    open spec fn obeys_eq_spec() -> bool {
        true
    }

    open spec fn eq_spec(&self, other: &Mode) -> bool {
        mode_eq(*self, *other)
    }
}

/// The index of the figure a mode is editing, if any.
pub open spec fn mode_selection(m: Mode) -> Option<usize> {
    match m {
        Mode::MoveControlPoints(s) => s,
        Mode::TransformObject(s) => s,
        Mode::PolygonOperations(s, _) => s,
        _ => Option::None,
    }
}

impl Mode {
    /// Drop the selection but keep the mode kind: an edit mode loses its
    /// figure index, the polygon mode also loses its pending sub-test, and
    /// every other mode is untouched.
    pub fn reset(&mut self)
        ensures
            *final(self) == match *old(self) {
                Mode::MoveControlPoints(Option::Some(_)) => Mode::MoveControlPoints(
                    Option::None,
                ),
                Mode::TransformObject(Option::Some(_)) => Mode::TransformObject(Option::None),
                Mode::PolygonOperations(Option::Some(_), _) => Mode::PolygonOperations(
                    Option::None,
                    PolygonTest::Inactive,
                ),
                other => other,
            },
            mode_selection(*final(self)) is None,
    {
        let next = match *self {
            Mode::MoveControlPoints(Some(_)) => Mode::MoveControlPoints(None),
            Mode::TransformObject(Some(_)) => Mode::TransformObject(None),
            Mode::PolygonOperations(Some(_), _) => Mode::PolygonOperations(
                None,
                PolygonTest::Inactive,
            ),
            other => other.clone(),
        };
        *self = next;
    }
}

/// Whether the core is idle or an algorithm is being stepped.
#[derive(Clone, Copy, PartialEq, Eq, Structural, Debug)]
pub enum Status {
    Awaiting,
    Computing,
}

/// The selectable algorithms, as offered by the control panel.
#[derive(Clone, Copy, PartialEq, Eq, Structural, Debug)]
pub enum Action {
    DrawDDA,
    DrawBresenham,
    DrawVu,
    DrawCircle,
    DrawEllips,
    DrawHyperbola,
    DrawParabola,
    DrawHermite,
    DrawBezier,
    DrawBSpline,
    LoadObject,
    DrawPolygon,
}

impl Action {
    /// Every selectable algorithm, in panel order.
    pub fn variants() -> (v: Vec<Action>)
        ensures
            v@ == seq![
                Action::DrawDDA,
                Action::DrawBresenham,
                Action::DrawVu,
                Action::DrawCircle,
                Action::DrawEllips,
                Action::DrawHyperbola,
                Action::DrawParabola,
                Action::DrawHermite,
                Action::DrawBezier,
                Action::DrawBSpline,
                Action::LoadObject,
                Action::DrawPolygon,
            ],
    {
        let mut v: Vec<Action> = Vec::new();
        v.push(Action::DrawDDA);
        v.push(Action::DrawBresenham);
        v.push(Action::DrawVu);
        v.push(Action::DrawCircle);
        v.push(Action::DrawEllips);
        v.push(Action::DrawHyperbola);
        v.push(Action::DrawParabola);
        v.push(Action::DrawHermite);
        v.push(Action::DrawBezier);
        v.push(Action::DrawBSpline);
        v.push(Action::LoadObject);
        v.push(Action::DrawPolygon);
        proof {
            assert(v@ =~= seq![
                Action::DrawDDA,
                Action::DrawBresenham,
                Action::DrawVu,
                Action::DrawCircle,
                Action::DrawEllips,
                Action::DrawHyperbola,
                Action::DrawParabola,
                Action::DrawHermite,
                Action::DrawBezier,
                Action::DrawBSpline,
                Action::LoadObject,
                Action::DrawPolygon,
            ]);
        }
        v
    }

    /// The panel label of the algorithm.
    pub fn to_str(&self) -> (r: &'static str)
        ensures
            *self is DrawDDA ==> r@ == "DDA Line"@,
            *self is DrawBresenham ==> r@ == "Bresenham's Line"@,
            *self is DrawVu ==> r@ == "Vu Line"@,
            *self is DrawCircle ==> r@ == "Circle"@,
            *self is DrawEllips ==> r@ == "Ellips"@,
            *self is DrawHyperbola ==> r@ == "Hyperbola"@,
            *self is DrawParabola ==> r@ == "Parabola"@,
            *self is DrawHermite ==> r@ == "Hermite curve"@,
            *self is DrawBezier ==> r@ == "Bezier curve"@,
            *self is DrawBSpline ==> r@ == "B-spline curve"@,
            *self is LoadObject ==> r@ == "3D object transforms"@,
            *self is DrawPolygon ==> r@ == "Polygons"@,
    {
        match self {
            Action::DrawDDA => "DDA Line",
            Action::DrawBresenham => "Bresenham's Line",
            Action::DrawVu => "Vu Line",
            Action::DrawCircle => "Circle",
            Action::DrawEllips => "Ellips",
            Action::DrawHyperbola => "Hyperbola",
            Action::DrawParabola => "Parabola",
            Action::DrawHermite => "Hermite curve",
            Action::DrawBezier => "Bezier curve",
            Action::DrawBSpline => "B-spline curve",
            Action::LoadObject => "3D object transforms",
            Action::DrawPolygon => "Polygons",
        }
    }
}

/// The parameter set a freshly selected algorithm starts from.
pub fn params_for(action: Action) -> (p: ParameterState)
    ensures
        match action {
            Action::DrawDDA => p matches ParameterState::Line(l) && l.line_type
                == LineType::First,
            Action::DrawBresenham => p matches ParameterState::Line(l) && l.line_type
                == LineType::Second,
            Action::DrawVu => p matches ParameterState::Line(l) && l.line_type
                == LineType::Third,
            Action::DrawCircle => p is Circle,
            Action::DrawEllips => p is Ellips,
            Action::DrawHyperbola => p is Hyperbola,
            Action::DrawParabola => p is Parabola,
            Action::DrawHermite => p matches ParameterState::Curve(c) && c.curve_type
                == CurveType::Hermite,
            Action::DrawBezier => p matches ParameterState::Curve(c) && c.curve_type
                == CurveType::Bezier,
            Action::DrawBSpline => p matches ParameterState::Curve(c) && c.curve_type
                == CurveType::BSpline,
            Action::LoadObject => p is Polygon,
            Action::DrawPolygon => p is Polygon,
        },
{
    match action {
        Action::DrawDDA => ParameterState::Line(Line::new(LineType::First)),
        Action::DrawBresenham => ParameterState::Line(Line::new(LineType::Second)),
        Action::DrawVu => ParameterState::Line(Line::new(LineType::Third)),
        Action::DrawCircle => ParameterState::Circle(Circle::new()),
        Action::DrawEllips => ParameterState::Ellips(Ellips::new()),
        Action::DrawHyperbola => ParameterState::Hyperbola(Hyperbola::new()),
        Action::DrawParabola => ParameterState::Parabola(Parabola::new()),
        Action::DrawHermite => ParameterState::Curve(Curve::new(CurveType::Hermite)),
        Action::DrawBezier => ParameterState::Curve(Curve::new(CurveType::Bezier)),
        Action::DrawBSpline => ParameterState::Curve(Curve::new(CurveType::BSpline)),
        Action::LoadObject => ParameterState::Polygon(Polygon::new()),
        Action::DrawPolygon => ParameterState::Polygon(Polygon::new()),
    }
}

/// Whether stepping is being replayed one tick at a time.
pub struct DebugState {
    pub figure_index: Option<usize>,
}

impl DebugState {
    pub fn new() -> (d: DebugState)
        ensures
            d.figure_index is None,
    {
        DebugState { figure_index: None }
    }
}

/// Throttling of the debug playback: the minimum interval between pulls,
/// the last pull instant as milliseconds supplied by the host, and the
/// pause flag.
pub struct ExecutionControl {
    pub update_interval_ms: u64,
    pub last_update_ms: Option<u64>,
    pub paused: bool,
}

impl ExecutionControl {
    pub fn new() -> (e: ExecutionControl)
        ensures
            e.update_interval_ms == 10,
            e.last_update_ms is None,
            !e.paused,
    {
        ExecutionControl { update_interval_ms: 10, last_update_ms: None, paused: false }
    }

    /// Whether a tick at time `now_ms` may pull one step: never while
    /// paused, and otherwise only once the interval has elapsed since the
    /// last pull.
    pub fn may_step(&self, now_ms: u64) -> (r: bool)
        ensures
            r == (!self.paused && match self.last_update_ms {
                Option::Some(last) => now_ms >= last && now_ms - last
                    >= self.update_interval_ms,
                Option::None => true,
            }),
    {
        if self.paused {
            return false;
        }
        match self.last_update_ms {
            Some(last) => now_ms >= last && now_ms - last >= self.update_interval_ms,
            None => true,
        }
    }
}

/// The drawing session: the figures, the interaction mode, the selected
/// algorithm, and the parameter set being collected.
pub struct DrawingState {
    pub mode: Mode,
    pub figures: Vec<Figure>,
    pub status: Status,
    pub selected: Action,
    pub parameters: ParameterState,
}

/// Every held figure is well formed.
pub open spec fn figures_wf(figures: Seq<Figure>) -> bool {
    forall|i: int| 0 <= i < figures.len() ==> (#[trigger] figures[i]).wf()
}

impl DrawingState {
    /// A fresh session: no figures, the first line algorithm selected.
    pub fn new() -> (d: DrawingState)
        ensures
            d.mode is Idle,
            d.figures@.len() == 0,
            d.status is Awaiting,
            d.selected is DrawDDA,
            figures_wf(d.figures@),
    {
        DrawingState {
            mode: Mode::Idle,
            figures: Vec::new(),
            status: Status::Awaiting,
            selected: Action::DrawDDA,
            parameters: params_for(Action::DrawDDA),
        }
    }

    /// Switch modes: the previously edited figure, if any, is deselected
    /// first, so at most one figure is ever active for editing; every
    /// other figure is untouched.
    pub fn change_mode(&mut self, new_mode: Mode)
        requires
            figures_wf(old(self).figures@),
            match mode_selection(old(self).mode) {
                Option::Some(i) => i < old(self).figures@.len(),
                Option::None => true,
            },
        ensures
            figures_wf(final(self).figures@),
            final(self).figures@.len() == old(self).figures@.len(),
            final(self).mode == new_mode,
            final(self).status == old(self).status,
            final(self).selected == old(self).selected,
            final(self).parameters == old(self).parameters,
            match mode_selection(old(self).mode) {
                Option::Some(i) => {
                    &&& forall|k: int|
                        0 <= k < old(self).figures@.len() && k != i
                            ==> #[trigger] final(self).figures@[k] == old(self).figures@[k]
                    &&& crate::figure::figure_deselected(final(self).figures@[i as int])
                    &&& crate::figure::same_figure_content(
                        old(self).figures@[i as int],
                        final(self).figures@[i as int],
                    )
                },
                Option::None => final(self).figures@ == old(self).figures@,
            },
    {
        let sel = match &self.mode {
            Mode::MoveControlPoints(Some(i)) => Some(*i),
            Mode::TransformObject(Some(i)) => Some(*i),
            Mode::PolygonOperations(Some(i), _) => Some(*i),
            _ => None,
        };
        match sel {
            Some(i) => {
                let ghost pre = self.figures@;
                let fig = &mut self.figures[i];
                fig.deselect();
                proof {
                    assert forall|k: int|
                        0 <= k < self.figures@.len() implies (#[trigger] self.figures@[k]).wf() by {
                        if k != i {
                            assert(self.figures@[k] == pre[k]);
                        }
                    }
                }
            },
            None => {},
        }
        self.mode = new_mode;
    }

    /// Drop the mode's selection, keeping the mode kind.
    pub fn reset(&mut self)
        ensures
            mode_selection(final(self).mode) is None,
            final(self).figures@ == old(self).figures@,
            final(self).status == old(self).status,
            final(self).selected == old(self).selected,
    {
        self.mode.reset();
    }
}

} // verus!
