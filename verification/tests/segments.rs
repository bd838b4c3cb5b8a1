use nfp::point::Point2D;
use nfp::polygon::Polygon;
use nfp::segment::{Segment, SegmentSegmentIntersection};

fn pt(x: i64, y: i64) -> Point2D {
    Point2D::from_xy(x, y)
}

fn close(a: i64, b: i64, tol: i64) -> bool {
    (a - b).abs() <= tol
}

const M: i64 = 1_000_000;

#[test]
fn test_segment_intersects_segment() {
    let segment1 = Segment::new(pt(0, 0), pt(5 * M, 5 * M));
    let segment2 = Segment::new(pt(0, 5 * M), pt(5 * M, 0));
    let segment3 = Segment::new(pt(6 * M, 6 * M), pt(7 * M, 7 * M));

    // crossing segments
    let intersection = segment1.intersects_segment(&segment2, false);
    match intersection {
        SegmentSegmentIntersection::Intersection(point) => {
            assert!(close(point.x, 2_500_000, 2));
            assert!(close(point.y, 2_500_000, 2));
        }
        _ => panic!("Expected intersection, got something else"),
    }

    // disjoint collinear segments
    let no_intersection = segment1.intersects_segment(&segment3, false);
    match no_intersection {
        SegmentSegmentIntersection::NoIntersection => {}
        _ => panic!("Expected no intersection, got something else"),
    }

    // overlapping collinear segments
    let segment4 = Segment::new(pt(M, M), pt(6 * M, 6 * M));
    let parallel_intersection = segment1.intersects_segment(&segment4, false);
    match parallel_intersection {
        SegmentSegmentIntersection::Overlap(point1, point2) => {
            assert_eq!(segment1.end(), point1);
            assert_eq!(segment4.start(), point2);
        }
        _ => panic!("Expected Overlap, got something else"),
    }

    // crossing only when extended
    let segment5 = Segment::new(pt(0, 2_500_000), pt(1_500_000, 2_500_000));
    let infinite_intersection = segment1.intersects_segment(&segment5, true);
    match infinite_intersection {
        SegmentSegmentIntersection::Intersection(infinite_point) => {
            assert!(close(infinite_point.x, 2_500_000, 2));
            assert!(close(infinite_point.y, 2_500_000, 2));
        }
        _ => panic!("Expected SegmentSegmentIntersection::Intersection"),
    }
}

#[test]
fn test_segment_distance_to_coincident_segment() {
    // segments that would merely touch at one point
    let segment1 = Segment::new(pt(0, 0), pt(0, M));
    let segment2 = Segment::new(pt(M, M), pt(M, 2 * M));
    let direction = pt(-M, 0);
    let distance = segment1.distance_to_segment_along_direction(&segment2, &direction);
    assert_eq!(distance, None);

    // segments that miss each other completely
    let segment1 = Segment::new(pt(0, 0), pt(0, M));
    let segment2 = Segment::new(pt(M, 2 * M), pt(M, 3 * M));
    let distance = segment1.distance_to_segment_along_direction(&segment2, &direction);
    assert_eq!(distance, None);

    // segments one unit apart
    let segment1 = Segment::new(pt(0, 0), pt(0, 2 * M));
    let segment2 = Segment::new(pt(M, M), pt(M, 3 * M));
    let distance = segment1.distance_to_segment_along_direction(&segment2, &direction);
    assert!(distance.is_some());
    assert!(close(distance.unwrap(), M, 4));
}

#[test]
fn test_classification_equal_reversed() {
    // the same stretch in either direction is Equal
    let s = Segment::new(pt(0, 0), pt(3 * M, 0));
    let same = Segment::new(pt(0, 0), pt(3 * M, 0));
    let reversed = Segment::new(pt(3 * M, 0), pt(0, 0));
    assert!(matches!(
        s.intersects_segment(&same, false),
        SegmentSegmentIntersection::Equal
    ));
    assert!(matches!(
        s.intersects_segment(&reversed, false),
        SegmentSegmentIntersection::Equal
    ));
}

#[test]
fn test_segment_intersects_polygon() {
    let square = Polygon::from_vertices(vec![
        pt(0, 0),
        pt(0, 2 * M),
        pt(2 * M, 2 * M),
        pt(2 * M, 0),
    ])
    .unwrap();

    // a segment crossing the square
    let segment = Segment::new(pt(-M, M), pt(3 * M, M));
    let intersections = segment.intersects_polygon(&square);
    assert_eq!(intersections.len(), 2);
    assert!(intersections.contains(&pt(0, M)));
    assert!(intersections.contains(&pt(2 * M, M)));
    // ordered along the segment
    assert_eq!(intersections[0], pt(0, M));
    assert_eq!(intersections[1], pt(2 * M, M));

    // a segment missing the square
    let non_intersecting_segment = Segment::new(pt(-2 * M, -M), pt(-M, -M));
    let no_intersections = non_intersecting_segment.intersects_polygon(&square);
    assert_eq!(no_intersections.len(), 0);
}
