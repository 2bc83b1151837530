use image_evol::{BBox, Barycentric, Point, Triangle};

#[test]
fn bbox_spans_corners() {
    let b = BBox::new(&Point::new(5, 1), &Point::new(2, 7), &Point::new(9, 4));
    assert_eq!((b.xmin(), b.ymin(), b.xmax(), b.ymax()), (2, 1, 9, 7));
    let t = Triangle::new(5, 1, 2, 7, 9, 4);
    assert_eq!(t.bbox, b);
}

#[test]
fn barycentric_of_centroid() {
    let t = Triangle::new(0, 0, 9, 0, 0, 9);
    assert_eq!(
        t.barycentric(&Point::new(3, 3)),
        Some(Barycentric { w0: -27, w1: -27, w2: -27, denom: -81 })
    );
}

#[test]
fn centroid_is_inside() {
    let t = Triangle::new(0, 0, 9, 0, 0, 9);
    assert!(t.contains(&Point::new(3, 3)));
    let u = Triangle::new(10, 2, 40, 8, 19, 35);
    assert!(u.contains(&Point::new(23, 15)));
}

#[test]
fn corners_and_edges_are_outside() {
    let t = Triangle::new(0, 0, 9, 0, 0, 9);
    for p in [(0, 0), (9, 0), (0, 9), (4, 0), (0, 4), (4, 5), (5, 4)] {
        assert!(!t.contains(&Point::new(p.0, p.1)));
    }
    assert!(t.contains(&Point::new(4, 4)));
}

#[test]
fn points_beyond_the_box_are_outside() {
    let t = Triangle::new(10, 2, 40, 8, 19, 35);
    for p in [(9, 10), (41, 8), (20, 1), (19, 36), (40, 36), (0, 0), (100, 100)] {
        assert!(!t.contains(&Point::new(p.0, p.1)));
    }
}

#[test]
fn degenerate_triangle_holds_nothing() {
    let t = Triangle::new(0, 0, 5, 5, 10, 10);
    assert_eq!(t.barycentric(&Point::new(3, 3)), None);
    assert!(!t.contains(&Point::new(3, 3)));
    assert!(!t.contains(&Point::new(3, 4)));
}

#[test]
fn far_corners_do_not_overflow() {
    let m = u32::MAX - 1;
    let t = Triangle::new(0, 0, m, 0, 0, m);
    assert!(t.contains(&Point::new(1, 1)));
    assert!(!t.contains(&Point::new(m, m)));
}

#[test]
fn bbox_points_row_major() {
    let b = BBox::new(&Point::new(3, 1), &Point::new(4, 3), &Point::new(3, 2));
    let expected: Vec<Point> = [(3, 1), (4, 1), (3, 2), (4, 2), (3, 3), (4, 3)]
        .iter()
        .map(|&(x, y)| Point::new(x, y))
        .collect();
    assert_eq!(b.points(), expected);
    assert_eq!(b.points(), expected);
}

#[test]
fn bbox_of_one_point() {
    let p = Point::new(7, 7);
    assert_eq!(BBox::new(&p, &p, &p).points(), vec![p]);
}
