use redrob::canvas::document::FillRule;
use redrob::canvas::error::CoreError;
use redrob::canvas::paths::{admit_path_work, path_coverage, path_visits};
use redrob::canvas::semantic::{
    clipped_fixed_bounds, cubic_point, edge_bounds, path_edges, point_in_path, point_near_edge,
    push_nonzero_edge, rounded_div, Edge, Point, QuantizedCommand, MAX_SEMANTIC_SEGMENTS,
};

fn p(x: i64, y: i64) -> Point {
    Point { x, y }
}

fn move_to(x: i64, y: i64) -> QuantizedCommand {
    QuantizedCommand::MoveTo { x: Some(x), y: Some(y) }
}

fn line_to(x: i64, y: i64) -> QuantizedCommand {
    QuantizedCommand::LineTo { x: Some(x), y: Some(y) }
}

#[test]
fn rounded_division_rounds_halves_away_from_zero() {
    assert_eq!(rounded_div(7, 2), 4);
    assert_eq!(rounded_div(-7, 2), -4);
    assert_eq!(rounded_div(5, 4), 1);
    assert_eq!(rounded_div(-5, 4), -1);
    assert_eq!(rounded_div(6, 4), 2);
    assert_eq!(rounded_div(0, 9), 0);
}

#[test]
fn cubic_flattening_hits_both_endpoints_and_the_midpoint() {
    let (p0, p1, p2, p3) = (p(0, 0), p(0, 4096), p(4096, 4096), p(4096, 0));
    assert_eq!(cubic_point(p0, p1, p2, p3, 0), p0);
    assert_eq!(cubic_point(p0, p1, p2, p3, 16), p3);
    assert_eq!(cubic_point(p0, p1, p2, p3, 8), p(2048, 3072));
    assert_eq!(cubic_point(p(-5, 0), p(-5, 0), p(-5, 0), p(-5, 0), 3), p(-5, 0));
}

#[test]
fn edge_bounds_cover_every_endpoint() {
    assert_eq!(edge_bounds(&[]), None);
    let edges = [
        Edge { a: p(3, -2), b: p(-1, 5) },
        Edge { a: p(0, 0), b: p(7, 1) },
    ];
    assert_eq!(edge_bounds(&edges), Some((-1, -2, 7, 5)));
}

#[test]
fn fixed_bounds_clip_to_whole_canvas_pixels() {
    assert_eq!(clipped_fixed_bounds(-300, 10, 600, 513, 2, 4), Some((0, 0, 2, 3)));
    assert_eq!(clipped_fixed_bounds(512, 0, 1000, 256, 2, 2), None);
    assert_eq!(clipped_fixed_bounds(-10, -10, 0, 5, 2, 2), None);
    assert_eq!(clipped_fixed_bounds(257, 0, 511, 256, 4, 4), Some((1, 0, 2, 1)));
}

#[test]
fn zero_length_edges_are_dropped_and_the_budget_is_exact() {
    let mut edges = Vec::new();
    push_nonzero_edge(&mut edges, p(1, 1), p(1, 1)).unwrap();
    assert!(edges.is_empty());
    push_nonzero_edge(&mut edges, p(1, 1), p(2, 1)).unwrap();
    assert_eq!(edges, vec![Edge { a: p(1, 1), b: p(2, 1) }]);
    let mut full = vec![Edge { a: p(0, 0), b: p(1, 0) }; MAX_SEMANTIC_SEGMENTS];
    assert!(matches!(
        push_nonzero_edge(&mut full, p(0, 0), p(0, 1)),
        Err(CoreError::SemanticWorkLimitExceeded)
    ));
    assert_eq!(full.len(), MAX_SEMANTIC_SEGMENTS);
    push_nonzero_edge(&mut full, p(4, 4), p(4, 4)).unwrap();
}

#[test]
fn fill_rules_differ_inside_overlapping_squares() {
    let square = |x0: i64, y0: i64, size: i64| {
        vec![
            Edge { a: p(x0, y0), b: p(x0, y0 + size) },
            Edge { a: p(x0, y0 + size), b: p(x0 + size, y0 + size) },
            Edge { a: p(x0 + size, y0 + size), b: p(x0 + size, y0) },
            Edge { a: p(x0 + size, y0), b: p(x0, y0) },
        ]
    };
    let mut edges = square(0, 0, 100);
    edges.extend(square(25, 25, 50));
    let center = p(50, 50);
    assert!(point_in_path(center, &edges, FillRule::NonZero));
    assert!(!point_in_path(center, &edges, FillRule::EvenOdd));
    assert!(point_in_path(p(10, 10), &edges, FillRule::EvenOdd));
    assert!(!point_in_path(p(150, 10), &edges, FillRule::NonZero));
}

#[test]
fn stroke_distance_uses_the_segment_and_its_ends() {
    let edge = Edge { a: p(0, 0), b: p(100, 0) };
    assert!(point_near_edge(p(50, 10), edge, 10));
    assert!(!point_near_edge(p(50, 11), edge, 10));
    assert!(point_near_edge(p(-6, 8), edge, 10));
    assert!(!point_near_edge(p(-8, 8), edge, 10));
    assert!(point_near_edge(p(106, -8), edge, 10));
    let dot = Edge { a: p(5, 5), b: p(5, 5) };
    assert!(point_near_edge(p(5, 15), dot, 10));
}

#[test]
fn open_fills_close_implicitly_and_strokes_stay_open() {
    let triangle = [move_to(0, 0), line_to(256, 0), line_to(256, 256)];
    let filled = path_edges(&triangle, true, false).unwrap();
    assert_eq!(filled.len(), 3);
    assert_eq!(filled[2], Edge { a: p(256, 256), b: p(0, 0) });
    let stroked = path_edges(&triangle, false, true).unwrap();
    assert_eq!(stroked.len(), 2);
    assert!(matches!(path_edges(&triangle, false, false), Err(CoreError::InvalidSemanticStyle)));
}

#[test]
fn every_non_move_command_is_rejected_after_close() {
    let closed = [move_to(0, 0), line_to(256, 0), line_to(0, 256), QuantizedCommand::Close];
    assert_eq!(path_edges(&closed, true, false).unwrap().len(), 3);
    for next in [line_to(5, 5), QuantizedCommand::Close] {
        let mut commands = closed.to_vec();
        commands.push(next);
        assert!(matches!(path_edges(&commands, true, true), Err(CoreError::InvalidSemanticPath)));
    }
    let mut reopened = closed.to_vec();
    reopened.push(move_to(512, 512));
    reopened.push(line_to(600, 512));
    assert_eq!(path_edges(&reopened, false, true).unwrap().len(), 4);
}

#[test]
fn malformed_paths_and_coordinates_are_typed() {
    assert!(matches!(path_edges(&[line_to(1, 1)], true, false), Err(CoreError::InvalidSemanticPath)));
    assert!(matches!(
        path_edges(&[move_to(0, 0), QuantizedCommand::Close], true, false),
        Err(CoreError::InvalidSemanticPath)
    ));
    assert!(matches!(path_edges(&[move_to(0, 0)], true, false), Err(CoreError::InvalidSemanticPath)));
    assert!(matches!(path_edges(&[], false, true), Err(CoreError::InvalidSemanticPath)));
    let bad = QuantizedCommand::LineTo { x: None, y: Some(0) };
    assert!(matches!(
        path_edges(&[move_to(0, 0), bad], true, false),
        Err(CoreError::InvalidSemanticGeometry)
    ));
    assert!(matches!(
        path_edges(&[bad, move_to(0, 0)], true, false),
        Err(CoreError::InvalidSemanticPath)
    ));
    let zero = [move_to(0, 0), line_to(0, 0), line_to(256, 0)];
    assert_eq!(path_edges(&zero, false, true).unwrap(), vec![Edge { a: p(0, 0), b: p(256, 0) }]);
}

#[test]
fn curves_flatten_into_sixteen_steps() {
    let curve = [
        move_to(0, 0),
        QuantizedCommand::CubicTo {
            control1_x: Some(0),
            control1_y: Some(4096),
            control2_x: Some(4096),
            control2_y: Some(4096),
            x: Some(4096),
            y: Some(0),
        },
    ];
    let edges = path_edges(&curve, false, true).unwrap();
    assert_eq!(edges.len(), 16);
    assert_eq!(edges[0].a, p(0, 0));
    assert_eq!(edges[15].b, p(4096, 0));
    let still = [
        move_to(7, 7),
        QuantizedCommand::CubicTo {
            control1_x: Some(7),
            control1_y: Some(7),
            control2_x: Some(7),
            control2_y: Some(7),
            x: Some(7),
            y: Some(7),
        },
    ];
    assert!(matches!(path_edges(&still, false, true), Err(CoreError::InvalidSemanticPath)));
}

fn square(size: i64) -> Vec<Edge> {
    let corners = [
        Point { x: 0, y: 0 },
        Point { x: size, y: 0 },
        Point { x: size, y: size },
        Point { x: 0, y: size },
    ];
    (0..4)
        .map(|k| Edge {
            a: corners[k],
            b: corners[(k + 1) % 4],
        })
        .collect()
}

#[test]
fn path_work_counts_samples_edges_and_paint_branches() {
    let (bounds, visits) = path_visits(Some((0, 0, 2560, 2560)), 4, true, Some(128), 20, 20).unwrap();
    assert_eq!(bounds, Some((-128, -128, 2688, 2688)));
    assert_eq!(visits, 11 * 11 * 16 * 4 * 2);
    let (bounds, visits) = path_visits(Some((0, 0, 2560, 2560)), 4, true, None, 20, 20).unwrap();
    assert_eq!(bounds, Some((0, 0, 2560, 2560)));
    assert_eq!(visits, 10 * 10 * 16 * 4);
    assert_eq!(path_visits(None, 0, true, Some(5), 20, 20).unwrap(), (None, 0));
    assert_eq!(
        path_visits(Some((99 * 256, 0, 100 * 256, 256)), 7, true, None, 20, 20).unwrap(),
        (Some((99 * 256, 0, 100 * 256, 256)), 0)
    );

    assert_eq!(admit_path_work(10, 100, 5, 50).unwrap(), (15, 150));
    assert!(matches!(
        admit_path_work(999_999, 0, 2, 0),
        Err(CoreError::SemanticWorkLimitExceeded)
    ));
    assert_eq!(admit_path_work(999_999, 0, 1, 0).unwrap(), (1_000_000, 0));
    assert!(matches!(
        admit_path_work(0, 256 * 1024 * 1024, 0, 1),
        Err(CoreError::SemanticWorkLimitExceeded)
    ));
}

#[test]
fn path_coverage_fills_inside_and_strokes_near_edges() {
    let edges = square(512);
    let (fill, stroke) = path_coverage(&edges, true, FillRule::NonZero, Some(64), (0, 0, 512, 512), 4, 4);
    for y in 0..4 {
        for x in 0..4 {
            let expected = if x < 2 && y < 2 { 16 } else { 0 };
            assert_eq!(fill[y * 4 + x], expected, "fill at ({x}, {y})");
        }
    }
    // Top-left pixel: its top sample row and left sample column are within a
    // quarter pixel of the square's edges.
    assert_eq!(stroke[0], 7);
    assert_eq!(stroke[5], 7);
    assert_eq!(stroke[10], 0);
    let (fill_only, no_stroke) = path_coverage(&edges, true, FillRule::EvenOdd, None, (0, 0, 512, 512), 4, 4);
    assert_eq!(fill_only, fill);
    assert!(no_stroke.iter().all(|c| *c == 0));
    let (no_fill, _) = path_coverage(&edges, false, FillRule::NonZero, Some(64), (0, 0, 512, 512), 4, 4);
    assert!(no_fill.iter().all(|c| *c == 0));
}
