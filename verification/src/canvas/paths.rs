//! Rendering work and pixel coverage of flattened vector paths. Edges are
//! in 1/256 pixel; each pixel is sampled on a fixed 4x4 grid.

use vstd::prelude::*;

use crate::canvas::document::{FillRule, MAX_DIMENSION};
use crate::canvas::error::CoreError;
use crate::canvas::glyphs::{filled, lemma_index, sample_offset};
use crate::canvas::semantic::{
    clipped_fixed_bounds, clipped_fixed_spec, inside_spec, near_edge_spec, point_in_path,
    point_near_edge, point_within, Edge, Point, MAX_FIXED_COORDINATE, MAX_SEMANTIC_SAMPLE_EDGE_VISITS,
    MAX_SEMANTIC_SEGMENTS,
};

verus! {

/// The box of a path's edges, grown by the stroke radius on every side when
/// the path is stroked.
pub open spec fn widened(bounds: Option<(i64, i64, i64, i64)>, stroke_radius: Option<i64>) -> Option<
    (int, int, int, int),
> {
    match bounds {
        Some((x0, y0, x1, y1)) => match stroke_radius {
            Some(r) => Some((x0 - r, y0 - r, x1 + r, y1 + r)),
            None => Some((x0 as int, y0 as int, x1 as int, y1 as int)),
        },
        None => None,
    }
}

/// Pixels of the canvas that a box touches.
pub open spec fn box_pixels(bounds: Option<(int, int, int, int)>, width: int, height: int) -> int {
    match bounds {
        Some((x0, y0, x1, y1)) => match clipped_fixed_spec(x0, y0, x1, y1, width, height) {
            Some((a, b, c, d)) => (c - a) * (d - b),
            None => 0,
        },
        None => 0,
    }
}

/// Paint branches of a path: one for the fill, one for the stroke.
pub open spec fn branches(fill: bool, stroked: bool) -> int {
    (if fill {
        1int
    } else {
        0int
    }) + (if stroked {
        1int
    } else {
        0int
    })
}

/// The box a path paints, and the visits rendering it takes; refused when
/// the count does not fit in 64 bits.
pub fn path_visits(
    bounds: Option<(i64, i64, i64, i64)>,
    edge_count: usize,
    fill: bool,
    stroke_radius: Option<i64>,
    width: u32,
    height: u32,
) -> (r: Result<(Option<(i64, i64, i64, i64)>, u64), CoreError>)
    requires
        bounds matches Some((x0, y0, x1, y1)) ==> {
            &&& -2 * MAX_FIXED_COORDINATE <= x0 <= 2 * MAX_FIXED_COORDINATE
            &&& -2 * MAX_FIXED_COORDINATE <= y0 <= 2 * MAX_FIXED_COORDINATE
            &&& -2 * MAX_FIXED_COORDINATE <= x1 <= 2 * MAX_FIXED_COORDINATE
            &&& -2 * MAX_FIXED_COORDINATE <= y1 <= 2 * MAX_FIXED_COORDINATE
        },
        stroke_radius matches Some(radius) ==> 0 <= radius <= MAX_FIXED_COORDINATE,
    ensures
        ({
            let wide = widened(bounds, stroke_radius);
            let p = box_pixels(wide, width as int, height as int);
            let e = edge_count as int;
            let b = branches(fill, stroke_radius is Some);
            &&& r is Ok <==> (p * 16 <= u64::MAX && p * 16 * e <= u64::MAX && p * 16 * e * b
                <= u64::MAX)
            &&& r matches Ok((bounds_out, visits)) ==> visits == p * 16 * e * b && match bounds_out {
                Some((x0, y0, x1, y1)) => wide == Some((x0 as int, y0 as int, x1 as int, y1 as int)),
                None => wide is None,
            }
            &&& r matches Err(err) ==> err == CoreError::SemanticWorkLimitExceeded
        }),
{
    let wide = match (bounds, stroke_radius) {
        (Some((x0, y0, x1, y1)), Some(radius)) => Some((x0 - radius, y0 - radius, x1 + radius, y1 + radius)),
        _ => bounds,
    };
    let pixels: u64 = match wide {
        Some((x0, y0, x1, y1)) => match clipped_fixed_bounds(x0, y0, x1, y1, width, height) {
            Some((a, b, c, d)) => {
                let w = (c - a) as u64;
                let h = (d - b) as u64;
                assert(w * h <= 0xFFFF_FFFFu64 * 0xFFFF_FFFFu64) by (nonlinear_arith)
                    requires
                        w <= 0xFFFF_FFFFu64,
                        h <= 0xFFFF_FFFFu64,
                ;
                w * h
            },
            None => 0,
        },
        None => 0,
    };
    let branches: u64 = (if fill { 1u64 } else { 0u64 }) + (if stroke_radius.is_some() { 1u64 } else { 0u64 });
    let edges = edge_count as u64;
    let visits = match pixels.checked_mul(16) {
        Some(v) => match v.checked_mul(edges) {
            Some(v) => v.checked_mul(branches),
            None => None,
        },
        None => None,
    };
    match visits {
        Some(v) => Ok((wide, v)),
        None => {
            Err(CoreError::SemanticWorkLimitExceeded)
        },
    }
}

/// Adds one path's edges and sample-edge visits to the running totals of a
/// vector node, refusing once either total passes its limit.
pub fn admit_path_work(segments: usize, visits: u64, edge_count: usize, path_visits: u64) -> (r: Result<
    (usize, u64),
    CoreError,
>)
    ensures
        r is Ok <==> segments + edge_count <= MAX_SEMANTIC_SEGMENTS && visits + path_visits
            <= MAX_SEMANTIC_SAMPLE_EDGE_VISITS,
        r matches Ok((s, v)) ==> s == segments + edge_count && v == visits + path_visits,
        r matches Err(e) ==> e == CoreError::SemanticWorkLimitExceeded,
{
    let total_segments = match segments.checked_add(edge_count) {
        Some(total) => total,
        None => return Err(CoreError::SemanticWorkLimitExceeded),
    };
    if total_segments > MAX_SEMANTIC_SEGMENTS {
        return Err(CoreError::SemanticWorkLimitExceeded);
    }
    let total_visits = match visits.checked_add(path_visits) {
        Some(total) => total,
        None => return Err(CoreError::SemanticWorkLimitExceeded),
    };
    if total_visits > MAX_SEMANTIC_SAMPLE_EDGE_VISITS {
        return Err(CoreError::SemanticWorkLimitExceeded);
    }
    Ok((total_segments, total_visits))
}

/// Sample `n` (row by row on the 4x4 grid) of pixel (`x`, `y`).
pub open spec fn sample_point(x: int, y: int, n: int) -> Point {
    Point { x: (x * 256 + sample_offset(n % 4)) as i64, y: (y * 256 + sample_offset(n / 4)) as i64 }
}

/// Whether `p` lies within `radius` of some edge.
pub open spec fn near_any(edges: Seq<Edge>, p: Point, radius: int) -> bool {
    exists|k: int| 0 <= k < edges.len() && #[trigger] near_edge_spec(p, edges[k], radius)
}

/// How many of the first `n` samples of pixel (`x`, `y`) lie inside the
/// path.
pub open spec fn fill_hits(edges: Seq<Edge>, rule: FillRule, x: int, y: int, n: int) -> nat
    decreases n,
{
    if n <= 0 {
        0
    } else {
        fill_hits(edges, rule, x, y, n - 1) + if inside_spec(edges, sample_point(x, y, n - 1), rule) {
            1nat
        } else {
            0nat
        }
    }
}

/// How many of the first `n` samples of pixel (`x`, `y`) lie within
/// `radius` of an edge.
pub open spec fn stroke_hits(edges: Seq<Edge>, radius: int, x: int, y: int, n: int) -> nat
    decreases n,
{
    if n <= 0 {
        0
    } else {
        stroke_hits(edges, radius, x, y, n - 1) + if near_any(edges, sample_point(x, y, n - 1), radius) {
            1nat
        } else {
            0nat
        }
    }
}

/// Fill and stroke coverage of pixel `i`, in sixteenths: counted for pixels
/// the path's box touches and for the branches the path paints; zero
/// elsewhere.
pub open spec fn path_coverage_at(
    edges: Seq<Edge>,
    fill: bool,
    rule: FillRule,
    stroke_radius: Option<i64>,
    bounds: (i64, i64, i64, i64),
    width: int,
    height: int,
    i: int,
) -> (u8, u8) {
    let x = i % width;
    let y = i / width;
    match clipped_fixed_spec(bounds.0 as int, bounds.1 as int, bounds.2 as int, bounds.3 as int, width, height) {
        Some((x0, y0, x1, y1)) => if x0 <= x < x1 && y0 <= y < y1 {
            (
                if fill {
                    fill_hits(edges, rule, x, y, 16) as u8
                } else {
                    0u8
                },
                match stroke_radius {
                    Some(r) => stroke_hits(edges, r as int, x, y, 16) as u8,
                    None => 0u8,
                },
            )
        } else {
            (0u8, 0u8)
        },
        None => (0u8, 0u8),
    }
}

/// Edges a canvas can be sampled against: not too many, and within twice the
/// coordinate range.
pub open spec fn edges_samplable(edges: Seq<Edge>) -> bool {
    &&& edges.len() <= MAX_SEMANTIC_SEGMENTS
    &&& forall|k: int|
        0 <= k < edges.len() ==> point_within((#[trigger] edges[k]).a, MAX_FIXED_COORDINATE as int * 2)
            && point_within(edges[k].b, MAX_FIXED_COORDINATE as int * 2)
}

fn near_any_edge(point: Point, edges: &[Edge], radius: i64) -> (r: bool)
    requires
        edges_samplable(edges@),
        point_within(point, MAX_FIXED_COORDINATE as int * 2),
        0 <= radius <= MAX_FIXED_COORDINATE,
    ensures
        r == near_any(edges@, point, radius as int),
{
    let mut k: usize = 0;
    while k < edges.len()
        invariant
            edges_samplable(edges@),
            point_within(point, MAX_FIXED_COORDINATE as int * 2),
            0 <= radius <= MAX_FIXED_COORDINATE,
            k <= edges@.len(),
            forall|j: int| 0 <= j < k ==> !#[trigger] near_edge_spec(point, edges@[j], radius as int),
        decreases edges@.len() - k,
    {
        if point_near_edge(point, edges[k], radius) {
            return true;
        }
        k = k + 1;
    }
    false
}

proof fn lemma_sample_within(x: int, y: int, n: int)
    requires
        0 <= x < MAX_DIMENSION,
        0 <= y < MAX_DIMENSION,
        0 <= n < 16,
    ensures
        point_within(sample_point(x, y, n), MAX_FIXED_COORDINATE as int * 2),
        sample_point(x, y, n).x == x * 256 + sample_offset(n % 4),
        sample_point(x, y, n).y == y * 256 + sample_offset(n / 4),
{
}

fn pixel_path_hits(
    edges: &[Edge],
    fill: bool,
    rule: FillRule,
    stroke_radius: Option<i64>,
    x: u32,
    y: u32,
) -> (r: (u8, u8))
    requires
        edges_samplable(edges@),
        x < MAX_DIMENSION,
        y < MAX_DIMENSION,
        stroke_radius matches Some(radius) ==> 0 <= radius <= MAX_FIXED_COORDINATE,
    ensures
        fill ==> r.0 as nat == fill_hits(edges@, rule, x as int, y as int, 16),
        !fill ==> r.0 == 0,
        stroke_radius matches Some(radius) ==> r.1 as nat == stroke_hits(edges@, radius as int, x as int, y as int, 16),
        stroke_radius is None ==> r.1 == 0,
{
    let mut fill_count: u8 = 0;
    let mut stroke_count: u8 = 0;
    let mut n: i64 = 0;
    while n < 16
        invariant
            0 <= n <= 16,
            fill_count <= n,
            stroke_count <= n,
            edges_samplable(edges@),
            x < MAX_DIMENSION,
            y < MAX_DIMENSION,
            stroke_radius matches Some(radius) ==> 0 <= radius <= MAX_FIXED_COORDINATE,
            fill ==> fill_count as nat == fill_hits(edges@, rule, x as int, y as int, n as int),
            !fill ==> fill_count == 0,
            stroke_radius matches Some(radius) ==> stroke_count as nat == stroke_hits(
                edges@,
                radius as int,
                x as int,
                y as int,
                n as int,
            ),
            stroke_radius is None ==> stroke_count == 0,
        decreases 16 - n,
    {
        proof {
            lemma_sample_within(x as int, y as int, n as int);
        }
        let point = Point { x: (x as i64) * 256 + 32 + 64 * (n % 4), y: (y as i64) * 256 + 32 + 64 * (n / 4) };
        assert(point == sample_point(x as int, y as int, n as int));
        if fill && point_in_path(point, edges, rule) {
            fill_count = fill_count + 1;
        }
        if let Some(radius) = stroke_radius {
            if near_any_edge(point, edges, radius) {
                stroke_count = stroke_count + 1;
            }
        }
        n = n + 1;
    }
    (fill_count, stroke_count)
}

/// How much of each pixel of a `width` x `height` canvas a flattened path
/// covers, in sixteenths, separately for its fill (samples inside the path
/// under its fill rule) and its stroke (samples within the stroke radius of
/// an edge). Only pixels the path's box touches are sampled.
pub fn path_coverage(
    edges: &[Edge],
    fill: bool,
    rule: FillRule,
    stroke_radius: Option<i64>,
    bounds: (i64, i64, i64, i64),
    width: u32,
    height: u32,
) -> (r: (Vec<u8>, Vec<u8>))
    requires
        edges_samplable(edges@),
        width <= MAX_DIMENSION,
        height <= MAX_DIMENSION,
        stroke_radius matches Some(radius) ==> 0 <= radius <= MAX_FIXED_COORDINATE,
        bounds.0 > i64::MIN,
        bounds.1 > i64::MIN,
        bounds.2 <= i64::MAX - 255,
        bounds.3 <= i64::MAX - 255,
    ensures
        r.0@.len() == width * height,
        r.1@.len() == width * height,
        forall|i: int|
            0 <= i < width * height ==> {
                let expected = #[trigger] path_coverage_at(
                    edges@,
                    fill,
                    rule,
                    stroke_radius,
                    bounds,
                    width as int,
                    height as int,
                    i,
                );
                r.0@[i] == expected.0 && r.1@[i] == expected.1
            },
{
    assert(width * height <= MAX_DIMENSION * MAX_DIMENSION) by (nonlinear_arith)
        requires
            width <= MAX_DIMENSION,
            height <= MAX_DIMENSION,
    ;
    let w = width as usize;
    let total = w * (height as usize);
    let mut fill_coverage: Vec<u8> = vec![0u8; total];
    let mut stroke_coverage: Vec<u8> = vec![0u8; total];
    let (x0, y0, x1, y1) = match clipped_fixed_bounds(bounds.0, bounds.1, bounds.2, bounds.3, width, height) {
        Some(b) => b,
        None => return (fill_coverage, stroke_coverage),
    };
    let mut y = y0;
    while y < y1
        invariant
            y0 <= y <= y1,
            y1 <= height,
            x0 < x1 <= width,
            width <= MAX_DIMENSION,
            height <= MAX_DIMENSION,
            w == width,
            total == width * height,
            fill_coverage@.len() == total,
            stroke_coverage@.len() == total,
            edges_samplable(edges@),
            stroke_radius matches Some(radius) ==> 0 <= radius <= MAX_FIXED_COORDINATE,
            clipped_fixed_spec(bounds.0 as int, bounds.1 as int, bounds.2 as int, bounds.3 as int, width as int, height as int)
                == Some((x0 as int, y0 as int, x1 as int, y1 as int)),
            forall|i: int|
                0 <= i < total ==> {
                    let expected = path_coverage_at(edges@, fill, rule, stroke_radius, bounds, width as int, height as int, i);
                    let done = filled(i, width as int, x0 as int, x1 as int, y0 as int, x0 as int, y as int);
                    &&& #[trigger] fill_coverage@[i] == if done { expected.0 } else { 0u8 }
                    &&& stroke_coverage@[i] == if done { expected.1 } else { 0u8 }
                },
        decreases y1 - y,
    {
        let mut x = x0;
        while x < x1
            invariant
                y0 <= y < y1,
                y1 <= height,
                x0 <= x <= x1,
                x1 <= width,
                width <= MAX_DIMENSION,
                height <= MAX_DIMENSION,
                w == width,
                total == width * height,
                fill_coverage@.len() == total,
                stroke_coverage@.len() == total,
                edges_samplable(edges@),
                stroke_radius matches Some(radius) ==> 0 <= radius <= MAX_FIXED_COORDINATE,
                clipped_fixed_spec(bounds.0 as int, bounds.1 as int, bounds.2 as int, bounds.3 as int, width as int, height as int)
                    == Some((x0 as int, y0 as int, x1 as int, y1 as int)),
                forall|i: int|
                    0 <= i < total ==> {
                        let expected = path_coverage_at(edges@, fill, rule, stroke_radius, bounds, width as int, height as int, i);
                        let done = filled(i, width as int, x0 as int, x1 as int, y0 as int, x as int, y as int);
                        &&& #[trigger] fill_coverage@[i] == if done { expected.0 } else { 0u8 }
                        &&& stroke_coverage@[i] == if done { expected.1 } else { 0u8 }
                    },
            decreases x1 - x,
        {
            proof {
                lemma_index(width as int, height as int, x as int, y as int);
            }
            let k = (y as usize) * w + (x as usize);
            let (f, s) = pixel_path_hits(edges, fill, rule, stroke_radius, x, y);
            let ghost before_fill = fill_coverage@;
            let ghost before_stroke = stroke_coverage@;
            fill_coverage.set(k, f);
            stroke_coverage.set(k, s);
            proof {
                assert forall|i: int| 0 <= i < total implies {
                    let expected = path_coverage_at(edges@, fill, rule, stroke_radius, bounds, width as int, height as int, i);
                    let done = filled(i, width as int, x0 as int, x1 as int, y0 as int, x + 1, y as int);
                    &&& #[trigger] fill_coverage@[i] == if done { expected.0 } else { 0u8 }
                    &&& stroke_coverage@[i] == if done { expected.1 } else { 0u8 }
                } by {
                    if i == k {
                        assert(i % (width as int) == x && i / (width as int) == y);
                    } else {
                        assert(before_fill[i] == fill_coverage@[i]);
                        assert(before_stroke[i] == stroke_coverage@[i]);
                        vstd::arithmetic::div_mod::lemma_fundamental_div_mod(i, width as int);
                        if i % (width as int) == x && i / (width as int) == y {
                            assert(i == (y as int) * (width as int) + (x as int)) by (nonlinear_arith)
                                requires
                                    i == (width as int) * (i / (width as int)) + i % (width as int),
                                    i % (width as int) == x,
                                    i / (width as int) == y,
                            ;
                        }
                        assert(filled(i, width as int, x0 as int, x1 as int, y0 as int, x + 1, y as int)
                            == filled(i, width as int, x0 as int, x1 as int, y0 as int, x as int, y as int));
                    }
                }
            }
            x = x + 1;
        }
        proof {
            assert forall|i: int| 0 <= i < total implies {
                let expected = path_coverage_at(edges@, fill, rule, stroke_radius, bounds, width as int, height as int, i);
                let done = filled(i, width as int, x0 as int, x1 as int, y0 as int, x0 as int, y + 1);
                &&& #[trigger] fill_coverage@[i] == if done { expected.0 } else { 0u8 }
                &&& stroke_coverage@[i] == if done { expected.1 } else { 0u8 }
            } by {
                assert(filled(i, width as int, x0 as int, x1 as int, y0 as int, x0 as int, y + 1)
                    == filled(i, width as int, x0 as int, x1 as int, y0 as int, x1 as int, y as int));
            }
        }
        y = y + 1;
    }
    proof {
        assert forall|i: int| 0 <= i < width * height implies {
            let expected = #[trigger] path_coverage_at(edges@, fill, rule, stroke_radius, bounds, width as int, height as int, i);
            fill_coverage@[i] == expected.0 && stroke_coverage@[i] == expected.1
        } by {
            vstd::arithmetic::div_mod::lemma_fundamental_div_mod(i, width as int);
            assert(0 <= i / (width as int)) by (nonlinear_arith)
                requires
                    0 <= i,
                    width > 0,
            ;
        }
    }
    (fill_coverage, stroke_coverage)
}

} // verus!
