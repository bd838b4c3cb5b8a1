use nfp::point::Point2D;
use nfp::polygon::Polygon;
use nfp::segment::Segment;

fn pt(x: i64, y: i64) -> Point2D {
    Point2D::from_xy(x, y)
}

fn close(a: i64, b: i64, tol: i64) -> bool {
    (a - b).abs() <= tol
}

const M: i64 = 1_000_000;

#[test]
fn test_within_distance() {
    let point1 = pt(0, 0);
    let point2 = pt(3 * M, 4 * M);

    assert!(point1.within_distance(&point2, 5_100_000));
    assert!(!point1.within_distance(&point2, 4_900_000));

    let point3 = pt(M, M);
    assert!(point1.within_distance(&point3, 1_500_000));
    assert!(!point1.within_distance(&point3, 1_400_000));
}

#[test]
fn test_normalized() {
    let point = pt(3 * M, 4 * M);
    let normalized = point.normalized().unwrap();

    assert!(close(normalized.x, 600_000, 2));
    assert!(close(normalized.y, 800_000, 2));

    let unit_point = pt(M, 0);
    let normalized_unit = unit_point.normalized().unwrap();

    assert!(close(normalized_unit.x, M, 2));
    assert!(close(normalized_unit.y, 0, 2));

    let zero_point = pt(0, 0);
    assert!(zero_point.normalized().is_none());
}

#[test]
fn test_on_segment() {
    let a = pt(0, 0);
    let b = pt(4 * M, 4 * M);
    let segment1 = Segment::new(a, b);

    // on the segment
    let p1 = pt(2 * M, 2 * M);
    assert!(p1.on_segment(&segment1));

    // not on the segment
    let p2 = pt(3 * M, 2 * M);
    assert!(!p2.on_segment(&segment1));

    // an endpoint is excluded
    let p3 = pt(0, 0);
    assert!(!p3.on_segment(&segment1));

    // vertical segment
    let segment2 = Segment::new(pt(M, 0), pt(M, 4 * M));
    let p4 = pt(M, 2 * M);
    assert!(p4.on_segment(&segment2));

    // horizontal segment
    let segment3 = Segment::new(pt(0, M), pt(4 * M, M));
    let p5 = pt(2 * M, M);
    assert!(p5.on_segment(&segment3));

    // just past the end
    let p6 = pt(4_100_000, 4_100_000);
    assert!(!p6.on_segment(&segment1));
}

#[test]
fn test_point_in_polygon() {

    let square = Polygon::from_vertices(vec![
        pt(0, 0),
        pt(4 * M, 0),
        pt(4 * M, 4 * M),
        pt(0, 4 * M),
    ])
    .unwrap();

    let p1 = pt(2 * M, 2 * M);
    assert_eq!(p1.in_polygon(&square), Some(true));

    let p2 = pt(5 * M, 5 * M);
    assert_eq!(p2.in_polygon(&square), Some(false));

    // on the perimeter
    let p3 = pt(0, 2 * M);
    assert_eq!(p3.in_polygon(&square), None);

    // on a vertex
    let p4 = pt(0, 0);
    assert_eq!(p4.in_polygon(&square), None);

    let triangle = Polygon::from_vertices(vec![pt(0, 0), pt(4 * M, 0), pt(2 * M, 4 * M)]).unwrap();

    let p5 = pt(2 * M, M);
    assert_eq!(p5.in_polygon(&triangle), Some(true));

    let p6 = pt(3 * M, 3 * M);
    assert_eq!(p6.in_polygon(&triangle), Some(false));

    // on an edge
    let p7 = pt(M, 2 * M);
    assert_eq!(p7.in_polygon(&triangle), None);

    // fewer than three vertices: undefined for every point
    let invalid_polygon = Polygon::from_vertices(vec![pt(0, 0), pt(M, M)]).unwrap();
    let p8 = pt(500_000, 500_000);
    assert_eq!(p8.in_polygon(&invalid_polygon), None);
}

#[test]
fn test_point_distance_to_segment() {

    let segment = Segment::new(pt(0, 0), pt(4 * M, 4 * M));
    let normal = pt(-M, M);

    // on the segment
    let p1 = pt(2 * M, 2 * M);
    let distance1 = p1.distance_to_segment(&segment, &normal, false);
    assert!(distance1.is_some());
    assert!(close(distance1.unwrap(), 0, 4));

    // off the end of the segment
    let p2 = pt(-M, -M);
    let distance2 = p2.distance_to_segment(&segment, &normal, false);
    assert!(distance2.is_none());

    // off the end, measured against the infinite line
    let distance2_infinite = p2.distance_to_segment(&segment, &normal, true);
    assert!(distance2_infinite.is_some());
    assert!(close(distance2_infinite.unwrap(), 0, 4));

    // beside the segment
    let p3 = pt(0, 2 * M);
    let distance3 = p3.distance_to_segment(&segment, &normal, false);
    assert!(distance3.is_some());
    let expected = -((2.0f64).sqrt() * 1_000_000.0).round() as i64;
    assert!(close(distance3.unwrap(), expected, 4));

    // the segment's own endpoints give no distance
    let p4 = pt(0, 0);
    assert!(p4.distance_to_segment(&segment, &normal, false).is_none());
    let p5 = pt(4 * M, 4 * M);
    assert!(p5.distance_to_segment(&segment, &normal, false).is_none());

    // vertical segment
    let vertical_segment = Segment::new(pt(2 * M, 0), pt(2 * M, 4 * M));
    let vertical_normal = pt(M, 0);
    let p6 = pt(3 * M, 2 * M);
    let distance6 = p6.distance_to_segment(&vertical_segment, &vertical_normal, false);
    assert!(distance6.is_some());
    assert!(close(distance6.unwrap(), -M, 4));

    // horizontal segment
    let horizontal_segment = Segment::new(pt(0, 2 * M), pt(4 * M, 2 * M));
    let horizontal_normal = pt(0, M);
    let p7 = pt(2 * M, M);
    let distance7 = p7.distance_to_segment(&horizontal_segment, &horizontal_normal, false);
    assert!(distance7.is_some());
    assert!(close(distance7.unwrap(), M, 4));
}
