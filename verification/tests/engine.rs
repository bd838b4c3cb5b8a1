use nfp::multi_polygon::MultiPolygon;
use nfp::problem::{IrregularBinPackingProblem, ProblemBuildError};
use nfp::raster::{draw_line, draw_text};
use nfp::point::Point2D;
use nfp::polygon::Polygon;

fn pt(x: i64, y: i64) -> Point2D {
    Point2D::from_xy(x, y)
}

const M: i64 = 1_000_000;

fn poly(vs: Vec<Point2D>) -> Polygon {
    Polygon::from_vertices(vs).unwrap()
}

fn hexagon() -> Polygon {
    let mut p = poly(vec![
        pt(0, 0),
        pt(2 * M, 4 * M),
        pt(2 * M, 2 * M),
        pt(2_900_000, M),
        pt(5 * M, M),
        pt(5 * M, 0),
    ]);
    p.translate(5 * M, 5 * M);
    p
}

fn triangle() -> Polygon {
    let mut p = poly(vec![pt(0, 0), pt(M, M), pt(M, -M)]);
    p.translate(8 * M, 8 * M);
    p
}

fn assert_contour_close(actual: &Vec<Point2D>, expected: &[(i64, i64)], tol: i64) {
    assert_eq!(actual.len(), expected.len());
    for (a, e) in actual.iter().zip(expected.iter()) {
        assert!(
            (a.x - e.0).abs() <= tol && (a.y - e.1).abs() <= tol,
            "point ({}, {}) differs from expected ({}, {})",
            a.x,
            a.y,
            e.0,
            e.1
        );
    }
}

#[test]
fn test_no_fit_polygon_one_convex_no_holes_outside() {
    let polygon1 = hexagon();
    let polygon2 = triangle();

    let expected: Vec<(i64, i64)> = vec![
        (4 * M, 4 * M),
        (9 * M, 4 * M),
        (10 * M, 5 * M),
        (10 * M, 6 * M),
        (9 * M, 7 * M),
        (7 * M, 7 * M),
        (7 * M, 9 * M),
        (6 * M, 10 * M),
        (4 * M, 6 * M),
    ];
    let nfp = polygon1.no_fit_polygon(&polygon2, false, false).unwrap();
    assert_eq!(nfp.len(), 1);
    assert_contour_close(&nfp[0], &expected, 1_000);
}

#[test]
fn test_no_fit_polygon_one_convex_no_holes_inside() {
    let polygon1 = hexagon();
    let polygon2 = triangle();

    let expected: Vec<(i64, i64)> = vec![(5_500_000, 6 * M), (6 * M, 7 * M), (6 * M, 6 * M)];
    let nfp = polygon1.no_fit_polygon(&polygon2, true, false).unwrap();
    assert_eq!(nfp.len(), 1);
    assert_contour_close(&nfp[0], &expected, 1_000);
}

#[test]
fn test_no_fit_polygon_idempotent() {
    // the engine is deterministic: identical inputs give identical output
    let polygon1 = hexagon();
    let polygon2 = triangle();
    let nfp1 = polygon1.no_fit_polygon(&polygon2, false, false).unwrap();
    let nfp2 = polygon1
        .clone()
        .no_fit_polygon(&polygon2.clone(), false, false)
        .unwrap();
    assert_eq!(nfp1, nfp2);
}

#[test]
fn test_nfp_boundary_separates() {
    // a placement strictly inside the NFP contour overlaps; one strictly
    // outside does not
    let polygon1 = hexagon();
    let polygon2 = triangle();
    let nfp = polygon1.no_fit_polygon(&polygon2, false, false).unwrap();
    assert_eq!(nfp.len(), 1);

    // (7, 5.5) is inside the contour: the triangle placed there overlaps
    let mut inside_placement = triangle();
    inside_placement.set_offset(pt(7 * M, 5_500_000));
    assert!(polygon1.intersects_polygon(&inside_placement));

    // (1, 1) is far outside the contour: no overlap
    let mut outside_placement = triangle();
    outside_placement.set_offset(pt(M, M));
    assert!(!polygon1.intersects_polygon(&outside_placement));
}

#[test]
fn test_no_fit_polygon_include_outer_and_holes() {
    let n_points = 16usize;
    let outer_vs: Vec<Point2D> = (0..n_points)
        .map(|i| {
            let angle = 2.0 * std::f64::consts::PI * i as f64 / n_points as f64;
            let x = (100.0 * angle.cos() * 1_000_000.0).round() as i64;
            let y = (100.0 * angle.sin() * 1_000_000.0).round() as i64;
            pt(x, y)
        })
        .collect();
    let mut outer = poly(outer_vs);
    outer.set_offset(pt(400 * M, 300 * M));

    let inner_vs: Vec<Point2D> = (0..n_points)
        .map(|i| {
            let angle = 2.0 * std::f64::consts::PI * i as f64 / n_points as f64;
            let x = (50.0 * angle.cos() * 1_000_000.0).round() as i64;
            let y = (50.0 * angle.sin() * 1_000_000.0).round() as i64;
            pt(x, y)
        })
        .collect();
    let mut inner = poly(inner_vs);
    inner.set_offset(pt(400 * M, 300 * M));

    let piece_0 = MultiPolygon::new(outer, vec![inner]);

    let mut square = poly(vec![pt(0, 0), pt(20 * M, 0), pt(20 * M, 20 * M), pt(0, 20 * M)]);
    square.set_offset(pt(390 * M, 290 * M));
    let piece_1 = MultiPolygon::new(square, vec![]);

    let nfp = piece_0.no_fit_polygon(&piece_1, true, true);

    assert_eq!(nfp.len(), 2);
    assert_eq!(nfp[0].len(), 20);
    assert_eq!(nfp[1].len(), 16);

    let tol = 20_000;
    assert!((nfp[0][0].x - 400 * M).abs() <= tol && (nfp[0][0].y - 180 * M).abs() <= tol);
    assert!((nfp[1][0].x - 428_010_876).abs() <= tol && (nfp[1][0].y - 290 * M).abs() <= tol);
}

#[test]
fn test_degenerate_guard() {
    // in_polygon on a two-vertex "polygon" is None for every probe
    let line = poly(vec![pt(0, 0), pt(M, M)]);
    for probe in [pt(0, 0), pt(500_000, 500_000), pt(2 * M, 0), pt(-M, -M)] {
        assert_eq!(probe.in_polygon(&line), None);
    }
}

#[test]
fn test_problem_builder() {
    // a builder without a bin fails
    let no_bin = IrregularBinPackingProblem::builder().build();
    assert_eq!(no_bin.err(), Some(ProblemBuildError::NoBinSet));

    // with a bin it succeeds and keeps the pieces
    let bin_poly = poly(vec![pt(0, 0), pt(10 * M, 0), pt(10 * M, 10 * M), pt(0, 10 * M)]);
    let bin = MultiPolygon::new(bin_poly, vec![]);
    let part = MultiPolygon::new(poly(vec![pt(0, 0), pt(M, 0), pt(M, M)]), vec![]);
    let problem = IrregularBinPackingProblem::builder()
        .bin(bin)
        .piece_description(part, vec![], 3)
        .build()
        .unwrap();
    assert_eq!(problem.piece_descriptions().len(), 1);
    assert_eq!(problem.piece_descriptions()[0].instances, 3);
}

#[test]
fn test_multi_polygon_area() {
    let outer = poly(vec![pt(0, 0), pt(4 * M, 0), pt(4 * M, -4 * M), pt(0, -4 * M)]);
    let hole = poly(vec![pt(M, -M), pt(2 * M, -M), pt(2 * M, -2 * M), pt(M, -2 * M)]);
    let piece = MultiPolygon::new(outer, vec![hole]);
    // outer 16 minus hole 1
    assert_eq!(piece.area(), 15_000_000_000_000i128);
}

#[test]
fn test_calculate_nfp_differences() {
    let stationary = poly(vec![pt(M, M), pt(2 * M, M), pt(M, 2 * M)]);
    let orbiting = poly(vec![pt(0, 0), pt(M, 0)]);
    let cloud = nfp::nfp::calculate_nfp(&stationary, &orbiting);
    assert_eq!(cloud.length(), 6);
    assert_eq!(cloud.local_vertex(0), pt(M, M));
    assert_eq!(cloud.local_vertex(1), pt(0, M));
    assert_eq!(cloud.local_vertex(2), pt(2 * M, M));
    assert_eq!(cloud.local_vertex(3), pt(M, M));
    assert_eq!(cloud.local_vertex(4), pt(M, 2 * M));
    assert_eq!(cloud.local_vertex(5), pt(0, 2 * M));
}

#[test]
fn test_draw_line_and_text() {
    let width = 32usize;
    let height = 16usize;
    let mut buffer: Vec<u32> = vec![0; width * height];
    draw_line(&mut buffer, 1, 3, 6, 3, 7, width, height);
    // the horizontal run is painted
    for x in 1..=6usize {
        assert_eq!(buffer[3 * width + x], 7);
    }
    // and nothing else was painted another color
    assert!(buffer.iter().all(|&p| p == 0 || p == 7));

    let mut buffer2: Vec<u32> = vec![0; width * height];
    draw_text(&mut buffer2, "A", 0, 0, 9, width, height);
    // the glyph painted something, in color, inside the 8x8 cell
    let painted: Vec<usize> = (0..buffer2.len()).filter(|&i| buffer2[i] != 0).collect();
    assert!(!painted.is_empty());
    for i in painted {
        assert_eq!(buffer2[i], 9);
        let (px, py) = (i % width, i / width);
        assert!(px < 8 && py < 8);
    }
}

#[test]
fn test_rotation_applies_to_vertices() {
    // a quarter turn carries (1, 0) to (0, 1) within rounding
    let mut p = poly(vec![pt(M, 0), pt(2 * M, 0), pt(M, M)]);
    p.set_rotation(nfp::point::Rotation::new(0, nfp::UNIT));
    let v = p.get_vertex(0);
    assert!((v.x - 0).abs() <= 2 && (v.y - M).abs() <= 2);
    let w = p.get_vertex(1);
    assert!((w.x - 0).abs() <= 2 && (w.y - 2 * M).abs() <= 2);
}
#[test]
fn test_search_start_point_accepts_touching_inside_placement() {
    // the start-point search for an inside placement: the accepted offset
    // places the orbiting polygon so a probe vertex is strictly inside,
    // the placement is new, and — for a fresh (unslid) placement — the
    // polygons do not properly overlap
    let stationary = poly(vec![
        pt(0, 0),
        pt(2 * M, 4 * M),
        pt(2 * M, 2 * M),
        pt(2_900_000, M),
        pt(5 * M, M),
        pt(5 * M, 0),
    ]);
    let orbiting = poly(vec![pt(0, 0), pt(M, M), pt(M, -M)]);
    let marks = vec![false; stationary.length()];
    let found = stationary.search_start_point(&orbiting, &marks, true, &None);
    assert!(found.is_some());
    let p = found.unwrap();
    // the engine's inside trace from this point closes (scenario two)
    let nfp = stationary.no_fit_polygon(&orbiting, true, false).unwrap();
    assert_eq!(nfp.len(), 1);
    assert!((nfp[0][0].x - p.x).abs() <= 1_000 && (nfp[0][0].y - p.y).abs() <= 1_000);
    // flag the asymmetric accept predicate kept from the engine's
    // start-point search: a fresh placement is accepted only when the
    // boundaries do not cross, but a slid placement (as here) only when
    // they do, the orbit then resolving the touching boundary
    let mut placed = poly(vec![pt(0, 0), pt(M, M), pt(M, -M)]);
    placed.set_offset(p);
    assert!(stationary.intersects_polygon(&placed));
}

#[test]
fn test_no_fit_polygon_one_convex_no_holes_outside_rotated() {
    // the hexagon at the origin against the triangle rotated by 0.9 radians
    let polygon1 = poly(vec![
        pt(0, 0),
        pt(2 * M, 4 * M),
        pt(2 * M, 2 * M),
        pt(2_900_000, M),
        pt(5 * M, M),
        pt(5 * M, 0),
    ]);
    let mut polygon2 = poly(vec![pt(0, 0), pt(M, M), pt(M, -M)]);
    let unit = nfp::UNIT as f64;
    let rot = nfp::point::Rotation::new(
        ((0.9f64).cos() * unit).round() as i64,
        ((0.9f64).sin() * unit).round() as i64,
    );
    polygon2.set_rotation(rot);

    let expected: Vec<(f64, f64)> = vec![
        (0.16171694135681902, -1.4049368778981477),
        (5.161716941356819, -1.4049368778981477),
        (5.161716941356819, -0.4049368778981477),
        (5.0, 1.0),
        (2.9, 1.0),
        (2.161716941356819, 1.8203145096035347),
        (2.161716941356819, 2.5950631221018523),
        (2.0, 4.0),
        (0.5950631221018523, 3.8382830586431806),
        (-1.4049368778981477, -0.16171694135681935),
    ];
    let nfp_r = polygon1.no_fit_polygon(&polygon2, false, false).unwrap();
    assert!(nfp_r.len() == 1, "contours: {:?}", nfp_r);
    assert!(nfp_r[0].len() == expected.len(), "contour: {:?}", nfp_r[0]);
    for (a, e) in nfp_r[0].iter().zip(expected.iter()) {
        let ex = (e.0 * 1_000_000.0).round() as i64;
        let ey = (e.1 * 1_000_000.0).round() as i64;
        assert!(
            (a.x - ex).abs() <= 2_000 && (a.y - ey).abs() <= 2_000,
            "point ({}, {}) differs from expected ({}, {})",
            a.x,
            a.y,
            ex,
            ey
        );
    }
}
