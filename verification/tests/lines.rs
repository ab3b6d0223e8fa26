use raster_lab::gen::drain;
use raster_lab::gen::PixelSource;
use raster_lab::gen::pull_batches;
use raster_lab::geometry::Point;
use raster_lab::lines::bresenham_line;
use raster_lab::lines::dda_line;
use raster_lab::lines::wu_line;
use raster_lab::pixel::Pixel;

fn p(x: i32, y: i32) -> Point {
    Point { x, y }
}

fn positions(pixels: &[Pixel]) -> Vec<(i32, i32)> {
    pixels.iter().map(|px| (px.pos.x, px.pos.y)).collect()
}

#[test]
fn bresenham_reference_sequence() {
    let mut g = bresenham_line(p(0, 0), p(5, 2));
    let out = drain(&mut g);
    let got = positions(&out);
    assert_eq!(got, vec![(0, 0), (1, 0), (2, 1), (3, 1), (4, 2), (5, 2)]);
}

#[test]
fn bresenham_endpoints_negative_direction() {
    let mut g = bresenham_line(p(5, 5), p(0, 2));
    let out = drain(&mut g);
    assert_eq!(out.first().map(|q| (q.pos.x, q.pos.y)), Some((5, 5)));
    assert_eq!(out.last().map(|q| (q.pos.x, q.pos.y)), Some((0, 2)));
}

#[test]
fn line_algorithms_share_endpoints() {
    let a = p(2, 3);
    let b = p(9, 7);
    let mut d = dda_line(a, b);
    let mut br = bresenham_line(a, b);
    let mut w = wu_line(a, b);
    let dd = drain(&mut d);
    let bb = drain(&mut br);
    let ww = drain(&mut w);
    for out in [&dd, &bb, &ww] {
        assert_eq!(out.first().map(|q| (q.pos.x, q.pos.y)), Some((2, 3)));
        assert_eq!(out.last().map(|q| (q.pos.x, q.pos.y)), Some((9, 7)));
    }
}

#[test]
fn dda_zero_length_line() {
    let mut g = dda_line(p(7, 7), p(7, 7));
    let out = drain(&mut g);
    assert_eq!(positions(&out), vec![(7, 7)]);
}

#[test]
fn wu_interior_intensities_sum_to_full() {
    let mut g = wu_line(p(0, 0), p(7, 3));
    let mut batches = Vec::new();
    loop {
        match g.step() {
            Some(b) => batches.push(b),
            None => break,
        }
    }
    assert!(batches.len() >= 3);
    for b in &batches[1..batches.len() - 1] {
        assert_eq!(b.len(), 2);
        let sum = b[0].intensity as u32 + b[1].intensity as u32;
        assert!(sum == 254 || sum == 255, "sum was {sum}");
    }
    // The first and last batches are the full-intensity endpoints.
    assert_eq!(batches[0].len(), 1);
    assert_eq!(batches[0][0].intensity, 255);
    assert_eq!(batches[batches.len() - 1].len(), 1);
    assert_eq!(batches[batches.len() - 1][0].intensity, 255);
}

#[test]
fn generators_resume_without_reset() {
    let mut split = bresenham_line(p(0, 0), p(5, 2));
    let first = pull_batches(&mut split, 2);
    let second = pull_batches(&mut split, 4);
    let mut whole = bresenham_line(p(0, 0), p(5, 2));
    let together = pull_batches(&mut whole, 6);
    let mut combined = first;
    combined.extend(second);
    let flat_a: Vec<(i32, i32)> = combined.iter().flatten().map(|q| (q.pos.x, q.pos.y)).collect();
    let flat_b: Vec<(i32, i32)> = together.iter().flatten().map(|q| (q.pos.x, q.pos.y)).collect();
    assert_eq!(flat_a, flat_b);
}
