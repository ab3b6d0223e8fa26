use std::collections::HashSet;

use raster_lab::curves::generate_bezier_curve;
use raster_lab::curves::generate_bspline_curve;
use raster_lab::curves::generate_hermite_curve;
use raster_lab::gen::drain;
use raster_lab::gen::PixelSource;
use raster_lab::geometry::Point;
use raster_lab::pixel::Pixel;
use raster_lab::second_order_lines::paint_circle;
use raster_lab::second_order_lines::paint_ellips;
use raster_lab::second_order_lines::paint_hyperbola;
use raster_lab::second_order_lines::paint_parabola;

fn p(x: i32, y: i32) -> Point {
    Point { x, y }
}

fn point_set(pixels: &[Pixel]) -> HashSet<(i32, i32)> {
    pixels.iter().map(|px| (px.pos.x, px.pos.y)).collect()
}

#[test]
fn circle_is_eightfold_symmetric() {
    let mut g = paint_circle(p(0, 0), p(5, 0));
    let out = drain(&mut g);
    let pts = point_set(&out);
    assert!(!pts.is_empty());
    for &(x, y) in &pts {
        assert!(pts.contains(&(-x, y)));
        assert!(pts.contains(&(x, -y)));
        assert!(pts.contains(&(y, x)));
    }
}

#[test]
fn circle_radius_from_distance() {
    // The two clicked points are 5 apart, so the topmost sample is at
    // distance 5 above the center.
    let mut g = paint_circle(p(10, 10), p(13, 14));
    let out = drain(&mut g);
    let pts = point_set(&out);
    assert!(pts.contains(&(10, 15)));
    assert!(pts.contains(&(10, 5)));
    assert!(pts.contains(&(15, 10)));
    assert!(pts.contains(&(5, 10)));
}

#[test]
fn ellipse_is_fourfold_symmetric() {
    let mut g = paint_ellips(p(0, 0), 8, 5);
    let out = drain(&mut g);
    let pts = point_set(&out);
    assert!(pts.contains(&(0, 5)));
    assert!(pts.contains(&(0, -5)));
    for &(x, y) in &pts {
        assert!(pts.contains(&(-x, y)));
        assert!(pts.contains(&(x, -y)));
    }
}

#[test]
fn parabola_respects_iteration_cap() {
    let mut g = paint_parabola(p(0, 0), 10, 7);
    let mut batches = 0;
    while let Some(b) = g.step() {
        assert_eq!(b.len(), 4);
        batches += 1;
    }
    assert_eq!(batches, 7);
}

#[test]
fn hyperbola_starts_at_vertex() {
    let mut g = paint_hyperbola(p(0, 0), 6, 4, 10);
    let out = drain(&mut g);
    let pts = point_set(&out);
    assert!(pts.contains(&(6, 0)));
    assert!(pts.contains(&(-6, 0)));
}

#[test]
fn hermite_curve_runs_between_first_and_third_points() {
    let mut pixels: Vec<Pixel> = Vec::new();
    generate_hermite_curve(p(0, 0), p(10, 0), p(20, 20), p(30, 20), &mut pixels);
    assert!(pixels.len() >= 21);
    assert_eq!((pixels[0].pos.x, pixels[0].pos.y), (0, 0));
    let last = pixels.last().unwrap();
    assert_eq!((last.pos.x, last.pos.y), (20, 20));
}

#[test]
fn bezier_curve_runs_between_endpoints() {
    let mut pixels: Vec<Pixel> = Vec::new();
    generate_bezier_curve(p(0, 0), p(0, 10), p(10, 10), p(10, 0), &mut pixels);
    assert!(pixels.len() >= 21);
    assert_eq!((pixels[0].pos.x, pixels[0].pos.y), (0, 0));
    let last = pixels.last().unwrap();
    assert_eq!((last.pos.x, last.pos.y), (10, 0));
}

#[test]
fn bspline_needs_four_points() {
    let mut pixels: Vec<Pixel> = Vec::new();
    let pts = vec![p(0, 0), p(10, 0), p(10, 10)];
    generate_bspline_curve(&pts, &mut pixels);
    assert!(pixels.is_empty());
}

#[test]
fn bspline_emits_one_segment_per_point() {
    let mut pixels: Vec<Pixel> = Vec::new();
    let pts = vec![p(0, 0), p(10, 0), p(10, 10), p(0, 10)];
    generate_bspline_curve(&pts, &mut pixels);
    // Four segments, each sampled at steps + 1 points with steps >= 20.
    assert!(pixels.len() >= 4 * 21);
    assert_eq!(pixels.len() % 4, 0);
}

#[test]
fn curve_control_point_editing() {
    let mut f = raster_lab::figure::CurveFigure::new(
        vec![p(0, 0), p(10, 0), p(20, 20), p(30, 20)],
        raster_lab::parameters::CurveType::Hermite,
    );
    assert_eq!(f.hit_test_control_point(p(11, 1)), Some(1));
    assert_eq!(f.hit_test_control_point(p(50, 50)), None);
    assert!(!f.move_point(p(12, 2)));
    f.toggle_point(1);
    assert!(f.move_point(p(12, 2)));
    assert_eq!(f.control_points()[1], p(12, 2));
    f.toggle_point(1);
    assert!(!f.move_point(p(0, 0)));
    // The polyline runs from the first to the third control point.
    assert!(f.hit_test(p(0, 0)));
    assert!(!f.hit_test(p(500, 500)));
}
