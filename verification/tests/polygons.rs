use nfp::point::Point2D;
use nfp::polygon::Polygon;

fn pt(x: i64, y: i64) -> Point2D {
    Point2D::from_xy(x, y)
}

fn close(a: i64, b: i64, tol: i64) -> bool {
    (a - b).abs() <= tol
}

const M: i64 = 1_000_000;

fn poly(vs: Vec<Point2D>) -> Polygon {
    Polygon::from_vertices(vs).unwrap()
}

#[test]
fn test_bounding_box() {
    let mut square = poly(vec![pt(0, 0), pt(4 * M, 0), pt(4 * M, 4 * M), pt(0, 4 * M)]);
    square.set_offset(pt(M, M));

    let bbox = square.bounding_box();
    assert_eq!(bbox.min_x, M);
    assert_eq!(bbox.min_y, M);
    assert_eq!(bbox.max_x, 5 * M);
    assert_eq!(bbox.max_y, 5 * M);

    let mut triangle = poly(vec![pt(0, 0), pt(3 * M, 0), pt(1_500_000, 2 * M)]);
    triangle.set_offset(pt(-M, -M));

    let bbox = triangle.bounding_box();
    assert_eq!(bbox.min_x, -M);
    assert_eq!(bbox.min_y, -M);
    assert_eq!(bbox.max_x, 2 * M);
    assert_eq!(bbox.max_y, M);
}

#[test]
fn test_area() {
    // clockwise winding gives a positive area
    let square = poly(vec![pt(0, 0), pt(4 * M, 0), pt(4 * M, -4 * M), pt(0, -4 * M)]);
    assert_eq!(square.area(), 16_000_000_000_000i128);

    let triangle = poly(vec![pt(0, 0), pt(4 * M, 0), pt(2 * M, -4 * M)]);
    assert_eq!(triangle.area(), 8_000_000_000_000i128);

    // counter-clockwise winding gives a negative area
    let ccw_polygon = poly(vec![pt(0, 0), pt(4 * M, 0), pt(4 * M, 4 * M), pt(0, 4 * M)]);
    assert_eq!(ccw_polygon.area(), -16_000_000_000_000i128);
}

#[test]
fn test_area_translation_invariant() {
    // moving a polygon never changes its signed area
    let mut p = poly(vec![pt(0, 0), pt(2 * M, 4 * M), pt(2 * M, 2 * M), pt(5 * M, 0)]);
    let before = p.area();
    p.translate(7 * M, -3 * M);
    assert_eq!(p.area(), before);
    p.translate(-11 * M, 13 * M);
    assert_eq!(p.area(), before);
}

#[test]
fn test_iter_poly_segments_3() {
    let square = poly(vec![pt(0, 0), pt(M, 0), pt(M, M), pt(0, M)]);

    let t0 = square.poly_segments_3(0);
    assert_eq!(t0.0.start(), pt(0, 0));
    assert_eq!(t0.0.end(), pt(M, 0));
    assert_eq!(t0.1.start(), pt(M, 0));
    assert_eq!(t0.1.end(), pt(M, M));
    assert_eq!(t0.2.start(), pt(M, M));
    assert_eq!(t0.2.end(), pt(0, M));

    let t1 = square.poly_segments_3(1);
    assert_eq!(t1.0.start(), pt(M, 0));
    assert_eq!(t1.0.end(), pt(M, M));
    assert_eq!(t1.1.start(), pt(M, M));
    assert_eq!(t1.1.end(), pt(0, M));
    assert_eq!(t1.2.start(), pt(0, M));
    assert_eq!(t1.2.end(), pt(0, 0));

    let t2 = square.poly_segments_3(2);
    assert_eq!(t2.0.start(), pt(M, M));
    assert_eq!(t2.0.end(), pt(0, M));
    assert_eq!(t2.1.start(), pt(0, M));
    assert_eq!(t2.1.end(), pt(0, 0));
    assert_eq!(t2.2.start(), pt(0, 0));
    assert_eq!(t2.2.end(), pt(M, 0));

    let t3 = square.poly_segments_3(3);
    assert_eq!(t3.0.start(), pt(0, M));
    assert_eq!(t3.0.end(), pt(0, 0));
    assert_eq!(t3.1.start(), pt(0, 0));
    assert_eq!(t3.1.end(), pt(M, 0));
    assert_eq!(t3.2.start(), pt(M, 0));
    assert_eq!(t3.2.end(), pt(M, M));
}

#[test]
fn test_polygon_intersects_polygon() {
    let square1 = poly(vec![pt(0, 0), pt(2 * M, 0), pt(2 * M, 2 * M), pt(0, 2 * M)]);
    let square2 = poly(vec![pt(M, M), pt(3 * M, M), pt(3 * M, 3 * M), pt(M, 3 * M)]);

    assert!(square1.intersects_polygon(&square2));
    assert!(square2.intersects_polygon(&square1));

    let square3 = poly(vec![pt(0, 0), pt(M, 0), pt(M, M), pt(0, M)]);
    let square4 = poly(vec![pt(2 * M, 2 * M), pt(3 * M, 2 * M), pt(3 * M, 3 * M), pt(2 * M, 3 * M)]);

    assert!(!square3.intersects_polygon(&square4));
    assert!(!square4.intersects_polygon(&square3));
}

#[test]
fn test_polygon_slide_distance_on_polygon() {
    let polygon1 = poly(vec![pt(0, 0), pt(0, M), pt(M, M), pt(M, 0)]);
    let mut polygon2 = poly(vec![pt(0, 0), pt(0, M), pt(M, M), pt(M, 0)]);
    polygon2.translate(-2 * M, 0);

    let direction_right = pt(M, 0);
    let distance_right = polygon1.slide_distance_on_polygon(&polygon2, &direction_right, true);
    assert!(distance_right.is_some());
    assert!(close(distance_right.unwrap(), M, 4));

    let direction_left = pt(-M, 0);
    let distance_left = polygon2.slide_distance_on_polygon(&polygon1, &direction_left, true);
    assert!(distance_left.is_some());
    assert!(close(distance_left.unwrap(), M, 4));

    let direction_up = pt(0, M);
    let distance_up = polygon1.slide_distance_on_polygon(&polygon2, &direction_up, true);
    assert!(distance_up.is_none());

    let direction_down = pt(0, -M);
    let distance_down = polygon2.slide_distance_on_polygon(&polygon1, &direction_down, true);
    assert!(distance_down.is_none());

    let direction_left_ignore = pt(-M, 0);
    let distance_left_ignore =
        polygon1.slide_distance_on_polygon(&polygon2, &direction_left_ignore, true);
    assert!(distance_left_ignore.is_none());
}

#[test]
fn test_polygon_project_distance_on_polygon() {
    let polygon1 = poly(vec![pt(0, 0), pt(0, 2 * M), pt(2 * M, 2 * M), pt(2 * M, 0)]);
    let mut polygon2 = poly(vec![pt(0, 0), pt(0, 2 * M), pt(2 * M, 2 * M), pt(2 * M, 0)]);
    polygon2.translate(3 * M, M);

    let direction_left = pt(-M, 0);
    let distance_left = polygon1.project_distance_on_polygon(&polygon2, &direction_left);
    assert!(distance_left.is_some());
    assert!(close(distance_left.unwrap(), 3 * M, 4));

    let direction_right = pt(M, 0);
    let distance_right = polygon2.project_distance_on_polygon(&polygon1, &direction_right);
    assert!(distance_right.is_some());
    assert!(close(distance_right.unwrap(), 3 * M, 4));

    let direction_up = pt(0, M);
    let distance_up = polygon1.project_distance_on_polygon(&polygon2, &direction_up);
    assert!(distance_up.is_none());

    let direction_down = pt(0, -M);
    let distance_down = polygon2.project_distance_on_polygon(&polygon1, &direction_down);
    assert!(distance_down.is_none());
}
