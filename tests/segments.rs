use image_evol::geometry::line_points;
use image_evol::{Color, Pixel, Point, RandomImage};
use rand::rngs::StdRng;
use rand::SeedableRng;

fn pts(v: &[(u32, u32)]) -> Vec<Point> {
    v.iter().map(|&(x, y)| Point::new(x, y)).collect()
}

#[test]
fn horizontal_segment_runs_left_to_right() {
    let expected = pts(&[(2, 3), (3, 3), (4, 3), (5, 3)]);
    assert_eq!(line_points(&Point::new(2, 3), &Point::new(5, 3)), expected);
    assert_eq!(line_points(&Point::new(5, 3), &Point::new(2, 3)), expected);
}

#[test]
fn vertical_segment_runs_top_to_bottom() {
    let expected = pts(&[(1, 1), (1, 2), (1, 3), (1, 4)]);
    assert_eq!(line_points(&Point::new(1, 4), &Point::new(1, 1)), expected);
}

#[test]
fn single_point_segment() {
    assert_eq!(line_points(&Point::new(3, 3), &Point::new(3, 3)), pts(&[(3, 3)]));
}

#[test]
fn shallow_segment_rounds_half_up() {
    let expected = pts(&[(0, 0), (1, 1), (2, 1), (3, 2), (4, 2)]);
    assert_eq!(line_points(&Point::new(0, 0), &Point::new(4, 2)), expected);
    assert_eq!(line_points(&Point::new(4, 2), &Point::new(0, 0)), expected);
}

#[test]
fn descending_segment_steps_up() {
    let expected = pts(&[(0, 4), (1, 3), (2, 3), (3, 2), (4, 2)]);
    assert_eq!(line_points(&Point::new(0, 4), &Point::new(4, 2)), expected);
}

#[test]
fn steep_segment_moves_one_row_per_column() {
    assert_eq!(line_points(&Point::new(0, 0), &Point::new(2, 5)), pts(&[(0, 0), (1, 1), (2, 2)]));
}

#[test]
fn segment_at_the_far_corner() {
    let m = u32::MAX;
    let expected = pts(&[(m - 3, m - 1), (m - 2, m - 1), (m - 1, m), (m, m)]);
    assert_eq!(line_points(&Point::new(m, m), &Point::new(m - 3, m - 1)), expected);
}

#[test]
fn line_paints_only_its_points_on_the_image() {
    let mut i = RandomImage::new(1, 6, &mut StdRng::seed_from_u64(1));
    i.line(0, 2, 0, 9, &Color { r: 0, g: 0, b: 0, a: 255 });
    let black = Pixel { r: 0, g: 0, b: 0, a: 255 };
    let white = Pixel { r: 255, g: 255, b: 255, a: 255 };
    assert_eq!(i.pixels(), &[white, white, black, black, black, black][..]);
}
