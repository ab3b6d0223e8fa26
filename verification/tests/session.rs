use raster_lab::parameters::Action;
use raster_lab::parameters::DrawingState;
use raster_lab::parameters::ExecutionControl;
use raster_lab::parameters::LineType;
use raster_lab::parameters::Mode;
use raster_lab::parameters::ParameterState;
use raster_lab::parameters::PolygonTest;
use raster_lab::parameters::params_for;
use raster_lab::geometry::Point;

fn p(x: i32, y: i32) -> Point {
    Point { x, y }
}

#[test]
fn action_labels_and_variants() {
    assert_eq!(Action::DrawDDA.to_str(), "DDA Line");
    assert_eq!(Action::DrawBresenham.to_str(), "Bresenham's Line");
    assert_eq!(Action::DrawPolygon.to_str(), "Polygons");
    let vs = Action::variants();
    assert_eq!(vs.len(), 12);
    assert_eq!(vs[0], Action::DrawDDA);
    assert_eq!(vs[11], Action::DrawPolygon);
}

#[test]
fn line_parameters_complete_on_second_click() {
    let mut params = params_for(Action::DrawBresenham);
    match &params {
        ParameterState::Line(l) => assert_eq!(l.line_type, LineType::Second),
        _ => panic!("expected line parameters"),
    }
    assert!(!params.handle_click(p(1, 2)));
    assert!(params.handle_click(p(5, 6)));
}

#[test]
fn curve_parameters_complete_on_fourth_click() {
    let mut params = params_for(Action::DrawBezier);
    assert!(!params.handle_click(p(0, 0)));
    assert!(!params.handle_click(p(1, 0)));
    assert!(!params.handle_click(p(2, 0)));
    assert!(params.handle_click(p(3, 0)));
}

#[test]
fn polygon_parameters_complete_on_keypress() {
    let mut params = params_for(Action::DrawPolygon);
    assert!(!params.handle_key(true));
    assert!(!params.handle_click(p(0, 0)));
    assert!(!params.handle_key(true));
    assert!(!params.handle_click(p(5, 0)));
    assert!(params.handle_key(true));
    assert!(!params.handle_key(false));
}

#[test]
fn mode_equality_ignores_payloads() {
    assert!(Mode::MoveControlPoints(Some(3)) == Mode::MoveControlPoints(None));
    assert!(
        Mode::PolygonOperations(Some(1), PolygonTest::Dot)
            == Mode::PolygonOperations(None, PolygonTest::Inactive)
    );
    assert!(!(Mode::Idle == Mode::Debug));
    // Two transform modes never compare equal, matching the panel's
    // always-reset behavior for that mode.
    assert!(!(Mode::TransformObject(None) == Mode::TransformObject(None)));
}

#[test]
fn mode_reset_drops_selection() {
    let mut m = Mode::PolygonOperations(Some(2), PolygonTest::Dot);
    m.reset();
    match m {
        Mode::PolygonOperations(None, PolygonTest::Inactive) => {},
        _ => panic!("expected a cleared polygon mode"),
    }
}

#[test]
fn session_mode_switch_keeps_figures() {
    let mut d = DrawingState::new();
    assert_eq!(d.figures.len(), 0);
    d.change_mode(Mode::Debug);
    match d.mode {
        Mode::Debug => {},
        _ => panic!("expected debug mode"),
    }
    d.reset();
}

#[test]
fn execution_control_throttles_steps() {
    let mut e = ExecutionControl::new();
    assert!(e.may_step(0));
    e.last_update_ms = Some(100);
    assert!(!e.may_step(105));
    assert!(e.may_step(110));
    e.paused = true;
    assert!(!e.may_step(1000));
}

#[test]
fn figure_offsets_follow_their_kind() {
    let mut line = raster_lab::parameters::Line::new(LineType::First);
    line.handle_click(p(9, 4));
    line.handle_click(p(2, 11));
    let f = raster_lab::figure::line_figure(&line).unwrap();
    assert_eq!(f.get_offset(), p(2, 4));

    let circle = raster_lab::parameters::Circle { start: Some(p(10, 10)), end: Some(p(13, 14)) };
    let c = raster_lab::figure::circle_figure(&circle).unwrap();
    assert_eq!(c.get_offset(), p(5, 5));

    let ellips = raster_lab::parameters::Ellips { start: Some(p(50, 60)), a: 8, b: 5 };
    let e = raster_lab::figure::ellips_figure(&ellips).unwrap();
    assert_eq!(e.get_offset(), p(42, 55));

    let parabola = raster_lab::parameters::Parabola { start: Some(p(0, 0)), p: 10, max_iterations: 7 };
    let pb = raster_lab::figure::parabola_figure(&parabola).unwrap();
    assert_eq!(pb.get_offset(), p(-7, -7));

    let hyperbola = raster_lab::parameters::Hyperbola {
        start: Some(p(0, 0)),
        a: 6,
        b: 4,
        max_iterations: 10,
    };
    let h = raster_lab::figure::hyperbola_figure(&hyperbola).unwrap();
    assert_eq!(h.get_offset(), p(-22, -10));

    let unfinished = raster_lab::parameters::Line::new(LineType::Second);
    assert!(raster_lab::figure::line_figure(&unfinished).is_none());
}
