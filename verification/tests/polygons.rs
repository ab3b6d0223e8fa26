use std::collections::HashSet;

use raster_lab::delone::is_valid_triangulation;
use raster_lab::delone::Delone;
use raster_lab::gen::drain;
use raster_lab::gen::PixelSource;
use raster_lab::geometry::Point;
use raster_lab::pixel::Pixel;
use raster_lab::polygon::Polygon;
use raster_lab::voronoi::Voronoi;

fn p(x: i32, y: i32) -> Point {
    Point { x, y }
}

fn point_set(pixels: &[Pixel]) -> HashSet<(i32, i32)> {
    pixels.iter().map(|px| (px.pos.x, px.pos.y)).collect()
}

fn square() -> Polygon {
    Polygon::new(vec![p(0, 0), p(10, 0), p(10, 10), p(0, 10)])
}

#[test]
fn convexity_of_square_and_dart() {
    assert!(square().test_convex());
    let dart = Polygon::new(vec![p(0, 0), p(10, 0), p(3, 3), p(0, 10)]);
    assert!(!dart.test_convex());
    let two = Polygon::new(vec![p(0, 0), p(10, 0)]);
    assert!(!two.test_convex());
}

#[test]
fn centroid_is_inside_and_far_point_is_not() {
    let poly = square();
    assert!(poly.test_dot(p(5, 5)));
    assert!(!poly.test_dot(p(500, 500)));
    assert!(!poly.test_dot(p(-500, 5)));
}

#[test]
fn probe_segment_intersections_are_recorded() {
    let mut poly = square();
    let mut probe = poly.test_line(p(-5, 5), p(15, 5));
    let samples = drain(&mut probe);
    assert!(!samples.is_empty());
    let hits: Vec<(i32, i32)> = poly
        .intersection_overlay()
        .iter()
        .map(|q| (q.x, q.y))
        .collect();
    assert!(hits.contains(&(0, 5)));
    assert!(hits.contains(&(10, 5)));
}

#[test]
fn hull_algorithms_agree_on_vertex_set() {
    let pts = vec![p(0, 0), p(10, 0), p(10, 10), p(0, 10), p(5, 5), p(3, 7), p(9, 2)];
    let mut a = Polygon::new(pts.clone());
    let mut b = Polygon::new(pts);
    a.graham();
    b.jarvis();
    let ha: HashSet<(i32, i32)> = a.vertices().iter().map(|q| (q.x, q.y)).collect();
    let hb: HashSet<(i32, i32)> = b.vertices().iter().map(|q| (q.x, q.y)).collect();
    assert_eq!(ha, hb);
    let expect: HashSet<(i32, i32)> =
        [(0, 0), (10, 0), (10, 10), (0, 10)].into_iter().collect();
    assert_eq!(ha, expect);
}

#[test]
fn internal_normals_point_inward() {
    let mut poly = square();
    poly.find_internal_normals();
    let normals: Vec<(i64, i64)> = poly.normal_list().clone();
    assert_eq!(normals.len(), 4);
    // Bottom edge (0,0)->(10,0): the inward normal points up.
    assert!(normals[0].1 > 0);
    // Top edge (10,10)->(0,10): the inward normal points down.
    assert!(normals[2].1 < 0);
}

#[test]
fn fill_algorithms_agree_on_square() {
    let poly = square();
    let mut one = poly.first();
    let mut two = poly.second();
    let a = drain(&mut one);
    let b = drain(&mut two);
    let pa: Vec<(i32, i32)> = a.iter().map(|q| (q.pos.x, q.pos.y)).collect();
    let pb: Vec<(i32, i32)> = b.iter().map(|q| (q.pos.x, q.pos.y)).collect();
    assert_eq!(pa, pb);
    assert!(point_set(&a).contains(&(5, 5)));
}

#[test]
fn triangle_fill_rows_shrink_linearly() {
    let poly = Polygon::new(vec![p(0, 0), p(4, 0), p(0, 4)]);
    let mut g = poly.first();
    let mut rows: Vec<Vec<(i32, i32)>> = Vec::new();
    while let Some(batch) = g.step() {
        rows.push(batch.iter().map(|q| (q.pos.x, q.pos.y)).collect());
    }
    assert_eq!(rows.len(), 5);
    assert_eq!(rows[0], vec![(0, 0), (1, 0), (2, 0), (3, 0), (4, 0)]);
    assert_eq!(rows[1], vec![(0, 1), (1, 1), (2, 1), (3, 1)]);
    assert_eq!(rows[2], vec![(0, 2), (1, 2), (2, 2)]);
    assert_eq!(rows[3], vec![(0, 3), (1, 3)]);
    // The top vertex row holds the degenerate span x = 0 ..= 0.
    assert_eq!(rows[4], vec![(0, 4)]);
}

#[test]
fn fill_of_degenerate_polygon_is_empty() {
    let poly = Polygon::new(vec![p(0, 0), p(10, 0)]);
    let mut g = poly.first();
    let out = drain(&mut g);
    assert!(out.is_empty());
}

#[test]
fn hit_test_detects_outline_only_inside_bounding_box() {
    let poly = square();
    assert!(poly.hit_test(p(5, 0)));
    assert!(poly.hit_test(p(10, 7)));
    assert!(!poly.hit_test(p(5, 5)));
    assert!(!poly.hit_test(p(50, 50)));
}

#[test]
fn delaunay_triangulation_has_empty_circumcircles() {
    let pts = vec![p(10, 10), p(200, 40), p(120, 180), p(60, 90), p(160, 120)];
    let d = Delone::new(&pts);
    let tris = d.get_triangles();
    assert!(!tris.is_empty());
    assert!(is_valid_triangulation(tris, &pts));
}

#[test]
fn voronoi_dual_emits_segments() {
    let pts = vec![p(10, 10), p(200, 40), p(120, 180), p(60, 90)];
    let v = Voronoi::new(&pts);
    assert!(!v.get_lines().is_empty());
}

#[test]
fn seed_fill_covers_square_interior() {
    let poly = square();
    let mut g = poly.third();
    let out = drain(&mut g);
    let filled = point_set(&out);
    // Every interior pixel is reached exactly once; the boundary is not.
    for x in 1..10 {
        for y in 1..10 {
            assert!(filled.contains(&(x, y)));
        }
    }
    assert_eq!(out.len(), 81);
    assert!(!filled.contains(&(0, 5)));
}

#[test]
fn span_fill_matches_seed_fill_pixels() {
    let poly = square();
    let mut a = poly.third();
    let mut b = poly.fourth();
    let pa = point_set(&drain(&mut a));
    let pb = point_set(&drain(&mut b));
    assert_eq!(pa, pb);
}

#[test]
fn span_fill_fills_whole_rows_per_step() {
    let poly = square();
    let mut g = poly.fourth();
    let first = g.step().unwrap();
    // The first step fills the centroid's whole span: nine interior
    // pixels of one row.
    assert_eq!(first.len(), 9);
    let row = first[0].pos.y;
    for px in &first {
        assert_eq!(px.pos.y, row);
    }
}

#[test]
fn hulls_handle_collinear_input() {
    let pts = vec![p(0, 0), p(2, 1), p(4, 2), p(8, 4)];
    let mut a = Polygon::new(pts.clone());
    let mut b = Polygon::new(pts);
    a.graham();
    b.jarvis();
    // Both degrade to the segment between the extreme points.
    let ha: HashSet<(i32, i32)> = a.vertices().iter().map(|q| (q.x, q.y)).collect();
    let hb: HashSet<(i32, i32)> = b.vertices().iter().map(|q| (q.x, q.y)).collect();
    assert!(ha.contains(&(0, 0)) && ha.contains(&(8, 4)));
    assert!(hb.contains(&(0, 0)) && hb.contains(&(8, 4)));
}
