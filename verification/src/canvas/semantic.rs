//! Fixed-point geometry for semantic vector and text content. Coordinates
//! are integers in 1/256 pixel; curves are flattened into a bounded number
//! of edges and coverage is sampled on a fixed 4x4 grid per pixel.

use vstd::prelude::*;

use crate::canvas::document::FillRule;
use crate::canvas::error::CoreError;

verus! {

pub const FIXED_SCALE: i64 = 256;
pub const CUBIC_STEPS: usize = 16;
pub const MAX_SEMANTIC_SEGMENTS: usize = 1_000_000;
pub const MAX_SEMANTIC_SAMPLE_EDGE_VISITS: u64 = 256 * 1024 * 1024;
pub const MAX_TEXT_WORK: u64 = 64 * 1024 * 1024;

/// Largest magnitude of a quantized coordinate: 1048576 pixels in 1/256.
pub const MAX_FIXED_COORDINATE: i64 = 268_435_456;

/// A point in 1/256 pixel.
#[derive(Clone, Copy, Debug, PartialEq, Eq, Structural)]
pub struct Point {
    pub x: i64,
    pub y: i64,
}

/// A directed line segment.
#[derive(Clone, Copy, Debug, PartialEq, Eq, Structural)]
pub struct Edge {
    pub a: Point,
    pub b: Point,
}

/// Whether both coordinates lie within `limit` of the origin.
pub open spec fn point_within(p: Point, limit: int) -> bool {
    -limit <= p.x <= limit && -limit <= p.y <= limit
}

/// Quotient rounded to nearest, halves away from zero.
pub open spec fn rounded_quotient(numerator: int, denominator: int) -> int {
    if numerator >= 0 {
        (numerator + denominator / 2) / denominator
    } else {
        -((-numerator + denominator / 2) / denominator)
    }
}

/// Divides, rounding to nearest with halves away from zero.
pub fn rounded_div(numerator: i128, denominator: i128) -> (r: i64)
    requires
        denominator > 0,
        -0x1_0000_0000_0000_0000_0000_0000 <= numerator <= 0x1_0000_0000_0000_0000_0000_0000,
        denominator <= 0x1_0000_0000_0000_0000_0000_0000,
        i64::MIN <= rounded_quotient(numerator as int, denominator as int) <= i64::MAX,
    ensures
        r == rounded_quotient(numerator as int, denominator as int),
{
    if numerator >= 0 {
        ((numerator + denominator / 2) / denominator) as i64
    } else {
        let magnitude = -numerator;
        let q = (magnitude + denominator / 2) / denominator;
        (-q) as i64
    }
}

proof fn lemma_mul_within(a: int, b: int, ma: int, mb: int)
    by (nonlinear_arith)
    requires
        -ma <= a <= ma,
        -mb <= b <= mb,
        ma >= 0,
        mb >= 0,
    ensures
        -(ma * mb) <= a * b <= ma * mb,
{
}

/// Numerator of one coordinate of the cubic Bezier point at `step / 16`,
/// over the denominator `16^3`.
pub open spec fn bezier_numerator(a: int, b: int, c: int, d: int, step: int) -> int {
    let inverse = 16 - step;
    inverse * inverse * inverse * a + 3 * (inverse * inverse * step) * b + 3 * (inverse * step * step) * c
        + step * step * step * d
}

/// The flattened cubic Bezier point at parameter `step / 16`, rounded to
/// the fixed grid.
pub open spec fn cubic_point_spec(p0: Point, p1: Point, p2: Point, p3: Point, step: int) -> Point {
    Point {
        x: rounded_quotient(bezier_numerator(p0.x as int, p1.x as int, p2.x as int, p3.x as int, step), 4096)
            as i64,
        y: rounded_quotient(bezier_numerator(p0.y as int, p1.y as int, p2.y as int, p3.y as int, step), 4096)
            as i64,
    }
}

proof fn lemma_weighted(w: int, a: int, limit: int)
    by (nonlinear_arith)
    requires
        w >= 0,
        -limit <= a <= limit,
    ensures
        -(w * limit) <= w * a <= w * limit,
{
}

proof fn lemma_bezier_bounds(a: int, b: int, c: int, d: int, step: int, limit: int)
    requires
        0 <= step <= 16,
        0 <= limit,
        -limit <= a <= limit,
        -limit <= b <= limit,
        -limit <= c <= limit,
        -limit <= d <= limit,
    ensures
        -4096 * limit <= bezier_numerator(a, b, c, d, step) <= 4096 * limit,
        -limit <= rounded_quotient(bezier_numerator(a, b, c, d, step), 4096) <= limit,
{
    let inverse = 16 - step;
    let w0 = inverse * inverse * inverse;
    let w1 = 3 * (inverse * inverse * step);
    let w2 = 3 * (inverse * step * step);
    let w3 = step * step * step;
    assert(w0 + w1 + w2 + w3 == 4096 && w0 >= 0 && w1 >= 0 && w2 >= 0 && w3 >= 0) by (nonlinear_arith)
        requires
            inverse == 16 - step,
            0 <= step <= 16,
            w0 == inverse * inverse * inverse,
            w1 == 3 * (inverse * inverse * step),
            w2 == 3 * (inverse * step * step),
            w3 == step * step * step,
    ;
    let n = bezier_numerator(a, b, c, d, step);
    assert(n == w0 * a + w1 * b + w2 * c + w3 * d);
    lemma_weighted(w0, a, limit);
    lemma_weighted(w1, b, limit);
    lemma_weighted(w2, c, limit);
    lemma_weighted(w3, d, limit);
    assert(w0 * limit + w1 * limit + w2 * limit + w3 * limit == 4096 * limit) by (nonlinear_arith)
        requires
            w0 + w1 + w2 + w3 == 4096,
    ;
    let r = rounded_quotient(n, 4096);
    if n >= 0 {
        assert(0 <= (n + 2048) / 4096 <= limit) by (nonlinear_arith)
            requires
                0 <= n <= 4096 * limit,
                limit >= 0,
        ;
    } else {
        assert(0 <= (-n + 2048) / 4096 <= limit) by (nonlinear_arith)
            requires
                0 < -n <= 4096 * limit,
                limit >= 0,
        ;
    }
}

/// The point at parameter `step / 16` of the cubic Bezier curve with
/// control points `p0..p3`.
pub fn cubic_point(p0: Point, p1: Point, p2: Point, p3: Point, step: i64) -> (r: Point)
    requires
        0 <= step <= 16,
        point_within(p0, MAX_FIXED_COORDINATE as int),
        point_within(p1, MAX_FIXED_COORDINATE as int),
        point_within(p2, MAX_FIXED_COORDINATE as int),
        point_within(p3, MAX_FIXED_COORDINATE as int),
    ensures
        r == cubic_point_spec(p0, p1, p2, p3, step as int),
        point_within(r, MAX_FIXED_COORDINATE as int),
{
    let inverse = 16 - step;
    let ghost limit = MAX_FIXED_COORDINATE as int;
    proof {
        assert(0 <= inverse * inverse <= 256 && 0 <= inverse * inverse * inverse <= 4096 && 0 <= inverse
            * inverse * step <= 4096 && 0 <= inverse * step <= 256 && 0 <= inverse * step * step <= 4096 && 0
            <= step * step <= 256 && 0 <= step * step * step <= 4096) by (nonlinear_arith)
            requires
                inverse == 16 - step,
                0 <= step <= 16,
        ;
    }
    let w0 = (inverse * inverse * inverse) as i128;
    let w1 = 3 * ((inverse * inverse * step) as i128);
    let w2 = 3 * ((inverse * step * step) as i128);
    let w3 = (step * step * step) as i128;
    proof {
        lemma_bezier_bounds(p0.x as int, p1.x as int, p2.x as int, p3.x as int, step as int, limit);
        lemma_bezier_bounds(p0.y as int, p1.y as int, p2.y as int, p3.y as int, step as int, limit);
        lemma_mul_within(w0 as int, p0.x as int, 4096, limit);
        lemma_mul_within(w1 as int, p1.x as int, 12288, limit);
        lemma_mul_within(w2 as int, p2.x as int, 12288, limit);
        lemma_mul_within(w3 as int, p3.x as int, 4096, limit);
        lemma_mul_within(w0 as int, p0.y as int, 4096, limit);
        lemma_mul_within(w1 as int, p1.y as int, 12288, limit);
        lemma_mul_within(w2 as int, p2.y as int, 12288, limit);
        lemma_mul_within(w3 as int, p3.y as int, 4096, limit);
    }
    let x = w0 * (p0.x as i128) + w1 * (p1.x as i128) + w2 * (p2.x as i128) + w3 * (p3.x as i128);
    let y = w0 * (p0.y as i128) + w1 * (p1.y as i128) + w2 * (p2.y as i128) + w3 * (p3.y as i128);
    Point { x: rounded_div(x, 4096), y: rounded_div(y, 4096) }
}

/// Endpoint `k` of the edge list: the start of edge `k / 2` for even `k`,
/// its end for odd `k`.
pub open spec fn endpoint(edges: Seq<Edge>, k: int) -> Point {
    if k % 2 == 0 {
        edges[k / 2].a
    } else {
        edges[k / 2].b
    }
}

/// The smallest box, as `(min_x, min_y, max_x, max_y)`, that holds every
/// endpoint; `None` without edges.
pub fn edge_bounds(edges: &[Edge]) -> (r: Option<(i64, i64, i64, i64)>)
    ensures
        r is None <==> edges@.len() == 0,
        r matches Some((x0, y0, x1, y1)) ==> {
            &&& forall|k: int|
                0 <= k < 2 * edges@.len() ==> x0 <= (#[trigger] endpoint(edges@, k)).x <= x1 && y0 <= endpoint(
                    edges@,
                    k,
                ).y <= y1
            &&& exists|k: int| 0 <= k < 2 * edges@.len() && (#[trigger] endpoint(edges@, k)).x == x0
            &&& exists|k: int| 0 <= k < 2 * edges@.len() && (#[trigger] endpoint(edges@, k)).y == y0
            &&& exists|k: int| 0 <= k < 2 * edges@.len() && (#[trigger] endpoint(edges@, k)).x == x1
            &&& exists|k: int| 0 <= k < 2 * edges@.len() && (#[trigger] endpoint(edges@, k)).y == y1
        },
{
    if edges.len() == 0 {
        return None;
    }
    let first = edges[0].a;
    let mut x0 = first.x;
    let mut y0 = first.y;
    let mut x1 = first.x;
    let mut y1 = first.y;
    let ghost mut kx0: int = 0;
    let ghost mut ky0: int = 0;
    let ghost mut kx1: int = 0;
    let ghost mut ky1: int = 0;
    assert(endpoint(edges@, 0) == first);
    let mut e: usize = 0;
    while e < edges.len()
        invariant
            edges@.len() > 0,
            e <= edges@.len(),
            forall|j: int|
                0 <= j < 2 * e ==> x0 <= (#[trigger] endpoint(edges@, j)).x <= x1 && y0 <= endpoint(edges@, j).y
                    <= y1,
            x0 <= endpoint(edges@, 0).x <= x1,
            y0 <= endpoint(edges@, 0).y <= y1,
            0 <= kx0 < 2 * edges@.len() && endpoint(edges@, kx0).x == x0,
            0 <= ky0 < 2 * edges@.len() && endpoint(edges@, ky0).y == y0,
            0 <= kx1 < 2 * edges@.len() && endpoint(edges@, kx1).x == x1,
            0 <= ky1 < 2 * edges@.len() && endpoint(edges@, ky1).y == y1,
        decreases edges@.len() - e,
    {
        let edge = edges[e];
        let mut side: usize = 0;
        while side < 2
            invariant
                edges@.len() > 0,
                e < edges@.len(),
                edge == edges@[e as int],
                side <= 2,
                forall|j: int|
                    0 <= j < 2 * e + side ==> x0 <= (#[trigger] endpoint(edges@, j)).x <= x1 && y0 <= endpoint(
                        edges@,
                        j,
                    ).y <= y1,
                x0 <= endpoint(edges@, 0).x <= x1,
                y0 <= endpoint(edges@, 0).y <= y1,
                0 <= kx0 < 2 * edges@.len() && endpoint(edges@, kx0).x == x0,
                0 <= ky0 < 2 * edges@.len() && endpoint(edges@, ky0).y == y0,
                0 <= kx1 < 2 * edges@.len() && endpoint(edges@, kx1).x == x1,
                0 <= ky1 < 2 * edges@.len() && endpoint(edges@, ky1).y == y1,
            decreases 2 - side,
        {
            let point = if side == 0 {
                edge.a
            } else {
                edge.b
            };
            let ghost k: int = 2 * e + side;
            assert(k / 2 == e && (k % 2 == 0 <==> side == 0));
            assert(point == endpoint(edges@, k));
            if point.x < x0 {
                x0 = point.x;
                proof {
                    kx0 = k;
                }
            }
            if point.y < y0 {
                y0 = point.y;
                proof {
                    ky0 = k;
                }
            }
            if point.x > x1 {
                x1 = point.x;
                proof {
                    kx1 = k;
                }
            }
            if point.y > y1 {
                y1 = point.y;
                proof {
                    ky1 = k;
                }
            }
            side = side + 1;
        }
        e = e + 1;
    }
    assert(endpoint(edges@, kx0).x == x0);
    assert(endpoint(edges@, ky0).y == y0);
    assert(endpoint(edges@, kx1).x == x1);
    assert(endpoint(edges@, ky1).y == y1);
    Some((x0, y0, x1, y1))
}

/// `value` limited to `0..=max`.
pub open spec fn clamp_range(value: int, max: int) -> int {
    if value < 0 {
        0
    } else if value > max {
        max
    } else {
        value
    }
}

/// The whole pixels touched by a fixed-point box, clipped to the canvas, as
/// half-open bounds; `None` when the box misses the canvas.
pub open spec fn clipped_fixed_spec(
    min_x: int,
    min_y: int,
    max_x: int,
    max_y: int,
    width: int,
    height: int,
) -> Option<(int, int, int, int)> {
    let x0 = clamp_range(min_x / 256, width);
    let y0 = clamp_range(min_y / 256, height);
    let x1 = clamp_range((max_x + 255) / 256, width);
    let y1 = clamp_range((max_y + 255) / 256, height);
    if min_x >= width * 256 || min_y >= height * 256 || max_x <= 0 || max_y <= 0 || x0 >= x1 || y0 >= y1 {
        None
    } else {
        Some((x0, y0, x1, y1))
    }
}

/// Division by 256 rounding toward negative infinity.
fn floor_div_256(value: i64) -> (r: i64)
    requires
        value > i64::MIN,
    ensures
        r == value as int / 256,
{
    if value >= 0 {
        value / 256
    } else {
        let magnitude = -value;
        let q = (magnitude - 1) / 256 + 1;
        assert(-q == value as int / 256) by (nonlinear_arith)
            requires
                magnitude == -value,
                magnitude > 0,
                q == (magnitude - 1) / 256 + 1,
        ;
        -q
    }
}

fn clamp_i64(value: i64, max: i64) -> (r: i64)
    requires
        max >= 0,
    ensures
        r == clamp_range(value as int, max as int),
{
    if value < 0 {
        0
    } else if value > max {
        max
    } else {
        value
    }
}

/// The canvas pixels under a fixed-point box, as half-open bounds.
pub fn clipped_fixed_bounds(
    min_x: i64,
    min_y: i64,
    max_x: i64,
    max_y: i64,
    width: u32,
    height: u32,
) -> (r: Option<(u32, u32, u32, u32)>)
    requires
        min_x > i64::MIN,
        min_y > i64::MIN,
        max_x <= i64::MAX - 255,
        max_y <= i64::MAX - 255,
    ensures
        match clipped_fixed_spec(
            min_x as int,
            min_y as int,
            max_x as int,
            max_y as int,
            width as int,
            height as int,
        ) {
            Some((x0, y0, x1, y1)) => r == Some((x0 as u32, y0 as u32, x1 as u32, y1 as u32)),
            None => r is None,
        },
{
    let canvas_x = (width as i64) * FIXED_SCALE;
    let canvas_y = (height as i64) * FIXED_SCALE;
    let x0 = clamp_i64(floor_div_256(min_x), width as i64);
    let y0 = clamp_i64(floor_div_256(min_y), height as i64);
    let x1 = clamp_i64(floor_div_256(max_x + 255), width as i64);
    let y1 = clamp_i64(floor_div_256(max_y + 255), height as i64);
    if min_x >= canvas_x || min_y >= canvas_y || max_x <= 0 || max_y <= 0 || x0 >= x1 || y0 >= y1 {
        None
    } else {
        Some((x0 as u32, y0 as u32, x1 as u32, y1 as u32))
    }
}

/// The edge list after `push_nonzero_edge`: zero-length edges are dropped
/// and the list is bounded.
pub open spec fn pushed_edges(edges: Seq<Edge>, a: Point, b: Point) -> Result<Seq<Edge>, CoreError> {
    if a == b {
        Ok(edges)
    } else if edges.len() >= MAX_SEMANTIC_SEGMENTS {
        Err(CoreError::SemanticWorkLimitExceeded)
    } else {
        Ok(edges.push(Edge { a, b }))
    }
}

/// Appends the edge from `a` to `b` unless it has no length; fails once the
/// edge budget is used up.
pub fn push_nonzero_edge(edges: &mut Vec<Edge>, a: Point, b: Point) -> (r: Result<(), CoreError>)
    ensures
        match pushed_edges(old(edges)@, a, b) {
            Ok(e) => r is Ok && final(edges)@ == e,
            Err(_) => (r matches Err(CoreError::SemanticWorkLimitExceeded)) && final(edges)@ == old(edges)@,
        },
{
    if a == b {
        return Ok(());
    }
    if edges.len() >= MAX_SEMANTIC_SEGMENTS {
        return Err(CoreError::SemanticWorkLimitExceeded);
    }
    edges.push(Edge { a, b });
    Ok(())
}

/// Twice the signed area of the triangle (edge.a, edge.b, p).
pub open spec fn edge_cross(edge: Edge, p: Point) -> int {
    (edge.b.x - edge.a.x) * (p.y - edge.a.y) - (edge.b.y - edge.a.y) * (p.x - edge.a.x)
}

/// Contribution of one edge to the winding number at `p`: +1 for an upward
/// edge with `p` on its left, -1 for a downward edge with `p` on its right.
pub open spec fn crossing(edge: Edge, p: Point) -> int {
    if edge.a.y <= p.y < edge.b.y && edge_cross(edge, p) > 0 {
        1
    } else if edge.b.y <= p.y < edge.a.y && edge_cross(edge, p) < 0 {
        -1
    } else {
        0
    }
}

/// Winding number of the first `n` edges around `p`.
pub open spec fn winding(edges: Seq<Edge>, p: Point, n: int) -> int
    decreases n,
{
    if n <= 0 {
        0
    } else {
        winding(edges, p, n - 1) + crossing(edges[n - 1], p)
    }
}

/// Number of the first `n` edges that cross the ray from `p`.
pub open spec fn crossings(edges: Seq<Edge>, p: Point, n: int) -> int
    decreases n,
{
    if n <= 0 {
        0
    } else {
        crossings(edges, p, n - 1) + if crossing(edges[n - 1], p) != 0 {
            1int
        } else {
            0int
        }
    }
}

/// Whether `p` is inside the closed edges under the fill rule.
pub open spec fn inside_spec(edges: Seq<Edge>, p: Point, rule: FillRule) -> bool {
    match rule {
        FillRule::NonZero => winding(edges, p, edges.len() as int) != 0,
        FillRule::EvenOdd => crossings(edges, p, edges.len() as int) % 2 == 1,
    }
}

proof fn lemma_winding_bounds(edges: Seq<Edge>, p: Point, n: int)
    requires
        0 <= n,
    ensures
        -n <= winding(edges, p, n) <= n,
        0 <= crossings(edges, p, n) <= n,
    decreases n,
{
    if n > 0 {
        lemma_winding_bounds(edges, p, n - 1);
    }
}

/// Whether a sample point lies inside the path's edges.
pub fn point_in_path(point: Point, edges: &[Edge], rule: FillRule) -> (r: bool)
    requires
        edges@.len() <= MAX_SEMANTIC_SEGMENTS,
        point_within(point, MAX_FIXED_COORDINATE as int * 2),
        forall|k: int|
            0 <= k < edges@.len() ==> point_within((#[trigger] edges@[k]).a, MAX_FIXED_COORDINATE as int * 2)
                && point_within(edges@[k].b, MAX_FIXED_COORDINATE as int * 2),
    ensures
        r == inside_spec(edges@, point, rule),
{
    let mut winding_number: i32 = 0;
    let mut odd = false;
    let mut i: usize = 0;
    let ghost limit = MAX_FIXED_COORDINATE as int * 2;
    while i < edges.len()
        invariant
            edges@.len() <= MAX_SEMANTIC_SEGMENTS,
            limit == MAX_FIXED_COORDINATE as int * 2,
            point_within(point, limit),
            forall|k: int|
                0 <= k < edges@.len() ==> point_within((#[trigger] edges@[k]).a, limit) && point_within(
                    edges@[k].b,
                    limit,
                ),
            i <= edges@.len(),
            winding_number == winding(edges@, point, i as int),
            odd == (crossings(edges@, point, i as int) % 2 == 1),
        decreases edges@.len() - i,
    {
        let edge = edges[i];
        proof {
            lemma_winding_bounds(edges@, point, i as int);
            assert(point_within(edge.a, limit) && point_within(edge.b, limit));
        }
        let dx = (edge.b.x - edge.a.x) as i128;
        let dy = (edge.b.y - edge.a.y) as i128;
        let py = (point.y - edge.a.y) as i128;
        let px = (point.x - edge.a.x) as i128;
        proof {
            lemma_mul_within(dx as int, py as int, 1073741824, 1073741824);
            lemma_mul_within(dy as int, px as int, 1073741824, 1073741824);
        }
        let cross = dx * py - dy * px;
        assert(cross == edge_cross(edge, point));
        if edge.a.y <= point.y && point.y < edge.b.y && cross > 0 {
            winding_number = winding_number + 1;
            odd = !odd;
        } else if edge.b.y <= point.y && point.y < edge.a.y && cross < 0 {
            winding_number = winding_number - 1;
            odd = !odd;
        }
        i = i + 1;
    }
    match rule {
        FillRule::NonZero => winding_number != 0,
        FillRule::EvenOdd => odd,
    }
}

/// Whether `p` lies within `radius` of the segment `edge` (or of its point
/// when the segment has no length).
pub open spec fn near_edge_spec(p: Point, edge: Edge, radius: int) -> bool {
    let dx = edge.b.x - edge.a.x;
    let dy = edge.b.y - edge.a.y;
    let px = p.x - edge.a.x;
    let py = p.y - edge.a.y;
    let length_squared = dx * dx + dy * dy;
    let radius_squared = radius * radius;
    let projection = px * dx + py * dy;
    if length_squared == 0 || projection <= 0 {
        px * px + py * py <= radius_squared
    } else if projection >= length_squared {
        (p.x - edge.b.x) * (p.x - edge.b.x) + (p.y - edge.b.y) * (p.y - edge.b.y) <= radius_squared
    } else {
        let cross = dx * py - dy * px;
        cross * cross <= radius_squared * length_squared
    }
}

/// Whether a sample point lies within `radius` of an edge.
pub fn point_near_edge(point: Point, edge: Edge, radius: i64) -> (r: bool)
    requires
        point_within(point, MAX_FIXED_COORDINATE as int * 2),
        point_within(edge.a, MAX_FIXED_COORDINATE as int * 2),
        point_within(edge.b, MAX_FIXED_COORDINATE as int * 2),
        0 <= radius <= MAX_FIXED_COORDINATE,
    ensures
        r == near_edge_spec(point, edge, radius as int),
{
    let ghost limit = MAX_FIXED_COORDINATE as int * 2;
    let dx = (edge.b.x - edge.a.x) as i128;
    let dy = (edge.b.y - edge.a.y) as i128;
    let px = (point.x - edge.a.x) as i128;
    let py = (point.y - edge.a.y) as i128;
    let qx = (point.x - edge.b.x) as i128;
    let qy = (point.y - edge.b.y) as i128;
    let rr = radius as i128;
    proof {
        let m = 1073741824int;
        assert(m == 2 * limit);
        lemma_mul_within(dx as int, dx as int, m, m);
        lemma_mul_within(dy as int, dy as int, m, m);
        lemma_mul_within(px as int, dx as int, m, m);
        lemma_mul_within(py as int, dy as int, m, m);
        lemma_mul_within(px as int, px as int, m, m);
        lemma_mul_within(py as int, py as int, m, m);
        lemma_mul_within(qx as int, qx as int, m, m);
        lemma_mul_within(qy as int, qy as int, m, m);
        lemma_mul_within(dx as int, py as int, m, m);
        lemma_mul_within(dy as int, px as int, m, m);
        lemma_mul_within(rr as int, rr as int, m, m);
    }
    let length_squared = dx * dx + dy * dy;
    let radius_squared = rr * rr;
    let projection = px * dx + py * dy;
    if length_squared == 0 || projection <= 0 {
        return px * px + py * py <= radius_squared;
    }
    if projection >= length_squared {
        return qx * qx + qy * qy <= radius_squared;
    }
    let cross = dx * py - dy * px;
    proof {
        lemma_mul_within(cross as int, cross as int, 2305843009213693952, 2305843009213693952);
        lemma_mul_within(radius_squared as int, length_squared as int, 1152921504606846976, 2305843009213693952);
    }
    cross * cross <= radius_squared * length_squared
}

/// One path command with its coordinates already quantized; a coordinate
/// that could not be quantized is `None`.
#[derive(Clone, Copy, Debug, PartialEq, Eq)]
pub enum QuantizedCommand {
    MoveTo { x: Option<i64>, y: Option<i64> },
    LineTo { x: Option<i64>, y: Option<i64> },
    CubicTo {
        control1_x: Option<i64>,
        control1_y: Option<i64>,
        control2_x: Option<i64>,
        control2_y: Option<i64>,
        x: Option<i64>,
        y: Option<i64>,
    },
    Close,
}

/// Whether a quantized coordinate, if present, lies in range.
pub open spec fn coordinate_within(v: Option<i64>) -> bool {
    v matches Some(c) ==> -MAX_FIXED_COORDINATE <= c <= MAX_FIXED_COORDINATE
}

/// Whether every coordinate of the command lies in range.
pub open spec fn command_within(command: QuantizedCommand) -> bool {
    match command {
        QuantizedCommand::MoveTo { x, y } => coordinate_within(x) && coordinate_within(y),
        QuantizedCommand::LineTo { x, y } => coordinate_within(x) && coordinate_within(y),
        QuantizedCommand::CubicTo { control1_x, control1_y, control2_x, control2_y, x, y } => coordinate_within(
            control1_x,
        ) && coordinate_within(control1_y) && coordinate_within(control2_x) && coordinate_within(control2_y)
            && coordinate_within(x) && coordinate_within(y),
        QuantizedCommand::Close => true,
    }
}

/// The point of two quantized coordinates; a missing one is invalid
/// geometry.
pub open spec fn point_of(x: Option<i64>, y: Option<i64>) -> Result<Point, CoreError> {
    match x {
        None => Err(CoreError::InvalidSemanticGeometry),
        Some(px) => match y {
            None => Err(CoreError::InvalidSemanticGeometry),
            Some(py) => Ok(Point { x: px, y: py }),
        },
    }
}

/// Where a path walk stands: the edges so far, the current point, the start
/// of the subpath, whether the subpath drew anything, and whether it was
/// closed.
pub struct PathState {
    pub edges: Seq<Edge>,
    pub current: Option<Point>,
    pub start: Option<Point>,
    pub drawable: bool,
    pub closed: bool,
}

/// A filled subpath that drew something is closed with an edge back to its
/// start.
pub open spec fn close_filled(state: PathState, fill: bool) -> Result<Seq<Edge>, CoreError> {
    if fill && state.drawable {
        match state.current {
            None => Err(CoreError::InvalidSemanticPath),
            Some(from) => match state.start {
                None => Err(CoreError::InvalidSemanticPath),
                Some(to) => pushed_edges(state.edges, from, to),
            },
        }
    } else {
        Ok(state.edges)
    }
}

/// The point a flattened cubic has reached after `k` of its 16 steps.
pub open spec fn cubic_prev(p0: Point, p1: Point, p2: Point, p3: Point, k: int) -> Point {
    if k == 0 {
        p0
    } else {
        cubic_point_spec(p0, p1, p2, p3, k)
    }
}

/// The edges after the first `n` of the 16 flattening steps of a cubic.
pub open spec fn cubic_edges(edges: Seq<Edge>, p0: Point, p1: Point, p2: Point, p3: Point, n: int) -> Result<
    Seq<Edge>,
    CoreError,
>
    decreases n,
{
    if n <= 0 {
        Ok(edges)
    } else {
        match cubic_edges(edges, p0, p1, p2, p3, n - 1) {
            Err(e) => Err(e),
            Ok(e) => pushed_edges(e, cubic_prev(p0, p1, p2, p3, n - 1), cubic_point_spec(p0, p1, p2, p3, n)),
        }
    }
}

/// One command of the path grammar: a line or curve needs a current point
/// and may not follow `Close`; `Close` needs a subpath that drew something.
pub open spec fn path_step(state: PathState, command: QuantizedCommand, fill: bool) -> Result<PathState, CoreError> {
    match command {
        QuantizedCommand::MoveTo { x, y } => match close_filled(state, fill) {
            Err(e) => Err(e),
            Ok(edges) => match point_of(x, y) {
                Err(e) => Err(e),
                Ok(p) => Ok(PathState { edges, current: Some(p), start: Some(p), drawable: false, closed: false }),
            },
        },
        QuantizedCommand::LineTo { x, y } => if state.closed {
            Err(CoreError::InvalidSemanticPath)
        } else {
            match state.current {
                None => Err(CoreError::InvalidSemanticPath),
                Some(from) => match point_of(x, y) {
                    Err(e) => Err(e),
                    Ok(to) => if from != to {
                        match pushed_edges(state.edges, from, to) {
                            Err(e) => Err(e),
                            Ok(edges) => Ok(PathState { edges, current: Some(to), drawable: true, ..state }),
                        }
                    } else {
                        Ok(PathState { current: Some(to), ..state })
                    },
                },
            }
        },
        QuantizedCommand::CubicTo { control1_x, control1_y, control2_x, control2_y, x, y } => if state.closed {
            Err(CoreError::InvalidSemanticPath)
        } else {
            match state.current {
                None => Err(CoreError::InvalidSemanticPath),
                Some(p0) => match point_of(control1_x, control1_y) {
                    Err(e) => Err(e),
                    Ok(p1) => match point_of(control2_x, control2_y) {
                        Err(e) => Err(e),
                        Ok(p2) => match point_of(x, y) {
                            Err(e) => Err(e),
                            Ok(p3) => if p0 != p1 || p0 != p2 || p0 != p3 {
                                match cubic_edges(state.edges, p0, p1, p2, p3, 16) {
                                    Err(e) => Err(e),
                                    Ok(edges) => Ok(
                                        PathState {
                                            edges,
                                            current: Some(p3),
                                            drawable: state.drawable || edges.len() != state.edges.len(),
                                            ..state
                                        },
                                    ),
                                }
                            } else {
                                Ok(PathState { current: Some(p3), ..state })
                            },
                        },
                    },
                },
            }
        },
        QuantizedCommand::Close => if state.closed || !state.drawable {
            Err(CoreError::InvalidSemanticPath)
        } else {
            match state.current {
                None => Err(CoreError::InvalidSemanticPath),
                Some(from) => match state.start {
                    None => Err(CoreError::InvalidSemanticPath),
                    Some(to) => match pushed_edges(state.edges, from, to) {
                        Err(e) => Err(e),
                        Ok(edges) => Ok(PathState { edges, current: Some(to), closed: true, ..state }),
                    },
                },
            }
        },
    }
}

/// The empty walk.
pub open spec fn path_start() -> PathState {
    PathState { edges: Seq::empty(), current: None, start: None, drawable: false, closed: false }
}

/// The walk after the first `n` commands.
pub open spec fn path_walk(commands: Seq<QuantizedCommand>, fill: bool, n: int) -> Result<PathState, CoreError>
    decreases n,
{
    if n <= 0 {
        Ok(path_start())
    } else {
        match path_walk(commands, fill, n - 1) {
            Err(e) => Err(e),
            Ok(state) => path_step(state, commands[n - 1], fill),
        }
    }
}

/// The edges of a whole path: a path must be filled or stroked, an open
/// filled subpath is closed at the end, and the result must hold between
/// one and `MAX_SEMANTIC_SEGMENTS` edges.
pub open spec fn path_edges_spec(commands: Seq<QuantizedCommand>, fill: bool, stroke: bool) -> Result<
    Seq<Edge>,
    CoreError,
> {
    if !fill && !stroke {
        Err(CoreError::InvalidSemanticStyle)
    } else {
        match path_walk(commands, fill, commands.len() as int) {
            Err(e) => Err(e),
            Ok(state) => {
                let finished = if state.closed {
                    Ok(state.edges)
                } else {
                    close_filled(state, fill)
                };
                match finished {
                    Err(e) => Err(e),
                    Ok(edges) => if edges.len() == 0 || edges.len() > MAX_SEMANTIC_SEGMENTS {
                        Err(CoreError::InvalidSemanticPath)
                    } else {
                        Ok(edges)
                    },
                }
            },
        }
    }
}

proof fn lemma_walk_error_sticks(commands: Seq<QuantizedCommand>, fill: bool, n: int, m: int)
    requires
        0 <= n <= m,
        path_walk(commands, fill, n) is Err,
    ensures
        path_walk(commands, fill, m) == path_walk(commands, fill, n),
    decreases m - n,
{
    if n < m {
        lemma_walk_error_sticks(commands, fill, n, m - 1);
    }
}

fn quantized_point(x: Option<i64>, y: Option<i64>) -> (r: Result<Point, CoreError>)
    ensures
        r == point_of(x, y),
{
    match x {
        None => Err(CoreError::InvalidSemanticGeometry),
        Some(px) => match y {
            None => Err(CoreError::InvalidSemanticGeometry),
            Some(py) => Ok(Point { x: px, y: py }),
        },
    }
}

/// Closes an open filled subpath that drew something.
fn close_filled_subpath(
    edges: &mut Vec<Edge>,
    current: Option<Point>,
    start: Option<Point>,
    drawable: bool,
    fill: bool,
) -> (r: Result<(), CoreError>)
    ensures
        match close_filled(
            PathState { edges: old(edges)@, current, start, drawable, closed: false },
            fill,
        ) {
            Ok(e) => r is Ok && final(edges)@ == e,
            Err(err) => (r matches Err(x) && x == err),
        },
{
    if fill && drawable {
        let from = match current {
            Some(p) => p,
            None => return Err(CoreError::InvalidSemanticPath),
        };
        let to = match start {
            Some(p) => p,
            None => return Err(CoreError::InvalidSemanticPath),
        };
        return push_nonzero_edge(edges, from, to);
    }
    Ok(())
}

/// Appends the 16 flattening edges of a cubic, skipping zero-length ones.
fn push_cubic(edges: &mut Vec<Edge>, p0: Point, p1: Point, p2: Point, p3: Point) -> (r: Result<(), CoreError>)
    requires
        point_within(p0, MAX_FIXED_COORDINATE as int),
        point_within(p1, MAX_FIXED_COORDINATE as int),
        point_within(p2, MAX_FIXED_COORDINATE as int),
        point_within(p3, MAX_FIXED_COORDINATE as int),
    ensures
        match cubic_edges(old(edges)@, p0, p1, p2, p3, 16) {
            Ok(e) => r is Ok && final(edges)@ == e,
            Err(err) => (r matches Err(x) && x == err),
        },
{
    let ghost initial = edges@;
    let mut previous = p0;
    let mut step: i64 = 1;
    while step <= 16
        invariant
            initial == old(edges)@,
            1 <= step <= 17,
            point_within(p0, MAX_FIXED_COORDINATE as int),
            point_within(p1, MAX_FIXED_COORDINATE as int),
            point_within(p2, MAX_FIXED_COORDINATE as int),
            point_within(p3, MAX_FIXED_COORDINATE as int),
            cubic_edges(initial, p0, p1, p2, p3, step - 1) == Ok::<Seq<Edge>, CoreError>(edges@),
            previous == cubic_prev(p0, p1, p2, p3, step - 1),
        decreases 17 - step,
    {
        let point = cubic_point(p0, p1, p2, p3, step);
        match push_nonzero_edge(edges, previous, point) {
            Ok(()) => {},
            Err(e) => {
                proof {
                    assert(cubic_edges(initial, p0, p1, p2, p3, step as int) == Err::<Seq<Edge>, CoreError>(
                        CoreError::SemanticWorkLimitExceeded,
                    ));
                    lemma_cubic_error_sticks(initial, p0, p1, p2, p3, step as int, 16);
                    assert(e == CoreError::SemanticWorkLimitExceeded);
                }
                return Err(e);
            },
        }
        previous = point;
        step = step + 1;
    }
    Ok(())
}

proof fn lemma_cubic_error_sticks(edges: Seq<Edge>, p0: Point, p1: Point, p2: Point, p3: Point, n: int, m: int)
    requires
        0 <= n <= m,
        cubic_edges(edges, p0, p1, p2, p3, n) is Err,
    ensures
        cubic_edges(edges, p0, p1, p2, p3, m) == cubic_edges(edges, p0, p1, p2, p3, n),
    decreases m - n,
{
    if n < m {
        lemma_cubic_error_sticks(edges, p0, p1, p2, p3, n, m - 1);
    }
}

/// The exec side of a path walk, besides its edges.
struct Cursor {
    current: Option<Point>,
    start: Option<Point>,
    drawable: bool,
    closed: bool,
}

spec fn state_of(edges: Seq<Edge>, cursor: Cursor) -> PathState {
    PathState {
        edges,
        current: cursor.current,
        start: cursor.start,
        drawable: cursor.drawable,
        closed: cursor.closed,
    }
}

spec fn cursor_within(cursor: Cursor) -> bool {
    &&& cursor.current matches Some(p) ==> point_within(p, MAX_FIXED_COORDINATE as int)
    &&& cursor.start matches Some(p) ==> point_within(p, MAX_FIXED_COORDINATE as int)
}

spec fn step_done(
    before: Seq<Edge>,
    cursor: Cursor,
    command: QuantizedCommand,
    fill: bool,
    after: Seq<Edge>,
    next: Cursor,
    r: Result<(), CoreError>,
) -> bool {
    match path_step(state_of(before, cursor), command, fill) {
        Ok(s) => r is Ok && state_of(after, next) == s && cursor_within(next),
        Err(err) => (r matches Err(x) && x == err),
    }
}

fn move_to(edges: &mut Vec<Edge>, cursor: &mut Cursor, x: Option<i64>, y: Option<i64>, fill: bool) -> (r: Result<
    (),
    CoreError,
>)
    requires
        command_within(QuantizedCommand::MoveTo { x, y }),
        cursor_within(*old(cursor)),
    ensures
        step_done(old(edges)@, *old(cursor), QuantizedCommand::MoveTo { x, y }, fill, final(edges)@, *final(cursor), r),
{
    match close_filled_subpath(edges, cursor.current, cursor.start, cursor.drawable, fill) {
        Ok(()) => {},
        Err(e) => return Err(e),
    }
    let point = match quantized_point(x, y) {
        Ok(p) => p,
        Err(e) => return Err(e),
    };
    cursor.current = Some(point);
    cursor.start = Some(point);
    cursor.drawable = false;
    cursor.closed = false;
    Ok(())
}

fn line_to(edges: &mut Vec<Edge>, cursor: &mut Cursor, x: Option<i64>, y: Option<i64>) -> (r: Result<(), CoreError>)
    requires
        command_within(QuantizedCommand::LineTo { x, y }),
        cursor_within(*old(cursor)),
    ensures
        forall|fill: bool|
            step_done(old(edges)@, *old(cursor), QuantizedCommand::LineTo { x, y }, fill, final(edges)@, *final(cursor), r),
{
    if cursor.closed {
        return Err(CoreError::InvalidSemanticPath);
    }
    let from = match cursor.current {
        Some(p) => p,
        None => return Err(CoreError::InvalidSemanticPath),
    };
    let to = match quantized_point(x, y) {
        Ok(p) => p,
        Err(e) => return Err(e),
    };
    if from != to {
        match push_nonzero_edge(edges, from, to) {
            Ok(()) => {},
            Err(e) => return Err(e),
        }
        cursor.drawable = true;
    }
    cursor.current = Some(to);
    Ok(())
}

fn cubic_to(
    edges: &mut Vec<Edge>,
    cursor: &mut Cursor,
    control1_x: Option<i64>,
    control1_y: Option<i64>,
    control2_x: Option<i64>,
    control2_y: Option<i64>,
    x: Option<i64>,
    y: Option<i64>,
) -> (r: Result<(), CoreError>)
    requires
        command_within(QuantizedCommand::CubicTo { control1_x, control1_y, control2_x, control2_y, x, y }),
        cursor_within(*old(cursor)),
    ensures
        forall|fill: bool|
            step_done(
                old(edges)@,
                *old(cursor),
                QuantizedCommand::CubicTo { control1_x, control1_y, control2_x, control2_y, x, y },
                fill,
                final(edges)@,
                *final(cursor),
                r,
            ),
{
    if cursor.closed {
        return Err(CoreError::InvalidSemanticPath);
    }
    let p0 = match cursor.current {
        Some(p) => p,
        None => return Err(CoreError::InvalidSemanticPath),
    };
    let p1 = match quantized_point(control1_x, control1_y) {
        Ok(p) => p,
        Err(e) => return Err(e),
    };
    let p2 = match quantized_point(control2_x, control2_y) {
        Ok(p) => p,
        Err(e) => return Err(e),
    };
    let p3 = match quantized_point(x, y) {
        Ok(p) => p,
        Err(e) => return Err(e),
    };
    if p0 != p1 || p0 != p2 || p0 != p3 {
        let before = edges.len();
        match push_cubic(edges, p0, p1, p2, p3) {
            Ok(()) => {},
            Err(e) => return Err(e),
        }
        cursor.drawable = cursor.drawable || edges.len() != before;
    }
    cursor.current = Some(p3);
    Ok(())
}

fn close_path(edges: &mut Vec<Edge>, cursor: &mut Cursor) -> (r: Result<(), CoreError>)
    requires
        cursor_within(*old(cursor)),
    ensures
        forall|fill: bool|
            step_done(old(edges)@, *old(cursor), QuantizedCommand::Close, fill, final(edges)@, *final(cursor), r),
{
    if cursor.closed || !cursor.drawable {
        return Err(CoreError::InvalidSemanticPath);
    }
    let from = match cursor.current {
        Some(p) => p,
        None => return Err(CoreError::InvalidSemanticPath),
    };
    let to = match cursor.start {
        Some(p) => p,
        None => return Err(CoreError::InvalidSemanticPath),
    };
    match push_nonzero_edge(edges, from, to) {
        Ok(()) => {},
        Err(e) => return Err(e),
    }
    cursor.current = Some(to);
    cursor.closed = true;
    Ok(())
}

/// The edges of a path of quantized commands for a fill and/or a stroke.
pub fn path_edges(commands: &[QuantizedCommand], fill: bool, stroke: bool) -> (r: Result<Vec<Edge>, CoreError>)
    requires
        forall|k: int| 0 <= k < commands@.len() ==> command_within(#[trigger] commands@[k]),
    ensures
        match path_edges_spec(commands@, fill, stroke) {
            Ok(e) => r matches Ok(v) && v@ == e,
            Err(err) => (r matches Err(x) && x == err),
        },
{
    if !fill && !stroke {
        return Err(CoreError::InvalidSemanticStyle);
    }
    let mut edges: Vec<Edge> = Vec::new();
    let mut cursor = Cursor { current: None, start: None, drawable: false, closed: false };
    let mut i: usize = 0;
    while i < commands.len()
        invariant
            fill || stroke,
            forall|k: int| 0 <= k < commands@.len() ==> command_within(#[trigger] commands@[k]),
            i <= commands@.len(),
            path_walk(commands@, fill, i as int) == Ok::<PathState, CoreError>(state_of(edges@, cursor)),
            cursor_within(cursor),
        decreases commands@.len() - i,
    {
        let command = commands[i];
        assert(command_within(command));
        let ghost before = edges@;
        let ghost prior = cursor;
        let step = match command {
            QuantizedCommand::MoveTo { x, y } => move_to(&mut edges, &mut cursor, x, y, fill),
            QuantizedCommand::LineTo { x, y } => line_to(&mut edges, &mut cursor, x, y),
            QuantizedCommand::CubicTo { control1_x, control1_y, control2_x, control2_y, x, y } => cubic_to(
                &mut edges,
                &mut cursor,
                control1_x,
                control1_y,
                control2_x,
                control2_y,
                x,
                y,
            ),
            QuantizedCommand::Close => close_path(&mut edges, &mut cursor),
        };
        assert(step_done(before, prior, command, fill, edges@, cursor, step));
        match step {
            Ok(()) => {},
            Err(e) => {
                proof {
                    assert(commands@[i as int] == command);
                    assert(path_walk(commands@, fill, i + 1) == Err::<PathState, CoreError>(e));
                    lemma_walk_error_sticks(commands@, fill, i + 1, commands@.len() as int);
                    assert(path_walk(commands@, fill, commands@.len() as int) == Err::<PathState, CoreError>(e));
                }
                return Err(e);
            },
        }
        i = i + 1;
    }
    if !cursor.closed {
        match close_filled_subpath(&mut edges, cursor.current, cursor.start, cursor.drawable, fill) {
            Ok(()) => {},
            Err(e) => return Err(e),
        }
    }
    if edges.len() == 0 || edges.len() > MAX_SEMANTIC_SEGMENTS {
        return Err(CoreError::InvalidSemanticPath);
    }
    Ok(edges)
}

/// Rounded division lands within half a divisor of the exact quotient.
pub proof fn law_rounded_div_is_nearest(numerator: int, denominator: int)
    requires
        denominator > 0,
    ensures
        -denominator <= 2 * (numerator - rounded_quotient(numerator, denominator) * denominator) <= denominator,
{
    let half = denominator / 2;
    if numerator >= 0 {
        let q = (numerator + half) / denominator;
        assert(-denominator <= 2 * (numerator - q * denominator) <= denominator) by (nonlinear_arith)
            requires
                denominator > 0,
                half == denominator / 2,
                q == (numerator + half) / denominator,
                numerator >= 0,
        ;
    } else {
        let q = (-numerator + half) / denominator;
        assert(-denominator <= 2 * (-numerator - q * denominator) <= denominator) by (nonlinear_arith)
            requires
                denominator > 0,
                half == denominator / 2,
                q == (-numerator + half) / denominator,
                numerator < 0,
        ;
        assert(numerator - (-q) * denominator == -(-numerator - q * denominator)) by (nonlinear_arith);
    }
}

/// A flattened cubic starts at its first control point and ends at its
/// last.
pub proof fn law_cubic_endpoints(p0: Point, p1: Point, p2: Point, p3: Point)
    ensures
        cubic_point_spec(p0, p1, p2, p3, 0) == p0,
        cubic_point_spec(p0, p1, p2, p3, 16) == p3,
{
    lemma_exact_quotient(p0.x as int);
    lemma_exact_quotient(p0.y as int);
    lemma_exact_quotient(p3.x as int);
    lemma_exact_quotient(p3.y as int);
    lemma_bezier_ends(p0.x as int, p1.x as int, p2.x as int, p3.x as int);
    lemma_bezier_ends(p0.y as int, p1.y as int, p2.y as int, p3.y as int);
}

proof fn lemma_bezier_ends(a: int, b: int, c: int, d: int)
    ensures
        bezier_numerator(a, b, c, d, 0) == 4096 * a,
        bezier_numerator(a, b, c, d, 16) == 4096 * d,
{
    assert(16 * 16 * 16 * a + 3 * (16 * 16 * 0) * b + 3 * (16 * 0 * 0) * c + 0 * 0 * 0 * d == 4096 * a)
        by (nonlinear_arith);
    assert(0 * 0 * 0 * a + 3 * (0 * 0 * 16) * b + 3 * (0 * 16 * 16) * c + 16 * 16 * 16 * d == 4096 * d)
        by (nonlinear_arith);
}

proof fn lemma_exact_quotient(a: int)
    ensures
        rounded_quotient(4096 * a, 4096) == a,
{
    if a >= 0 {
        assert((4096 * a + 2048) / 4096 == a) by (nonlinear_arith);
    } else {
        assert((-(4096 * a) + 2048) / 4096 == -a) by (nonlinear_arith)
            requires
                a < 0,
        ;
    }
}

proof fn lemma_winding_parity(edges: Seq<Edge>, p: Point, n: int)
    requires
        0 <= n,
    ensures
        (winding(edges, p, n) - crossings(edges, p, n)) % 2 == 0,
    decreases n,
{
    if n > 0 {
        lemma_winding_parity(edges, p, n - 1);
    }
}

/// The same segment traversed the other way.
pub open spec fn reversed_edge(edge: Edge) -> Edge {
    Edge { a: edge.b, b: edge.a }
}

/// Traversing an edge the other way turns its winding contribution around:
/// an edge and its reverse cancel at every point.
pub proof fn law_reversed_edge_cancels(edge: Edge, p: Point)
    ensures
        crossing(reversed_edge(edge), p) == -crossing(edge, p),
        crossing(edge, p) + crossing(reversed_edge(edge), p) == 0,
{
    let r = reversed_edge(edge);
    let (ax, ay, bx, by, px, py) = (edge.a.x as int, edge.a.y as int, edge.b.x as int, edge.b.y as int, p.x as int, p.y as int);
    assert((ax - bx) * (py - by) - (ay - by) * (px - bx) == -((bx - ax) * (py - ay) - (by - ay) * (px - ax)))
        by (nonlinear_arith);
    assert(edge_cross(r, p) == -edge_cross(edge, p));
}

/// 1 when `v` is at or below the height of `p` (not above it), else 0.
pub open spec fn at_or_below(v: Point, p: Point) -> int {
    if v.y <= p.y {
        1
    } else {
        0
    }
}

/// Seen from a point left of both endpoints, an edge counts +1 when it
/// rises across the point's height and -1 when it falls across it.
proof fn lemma_crossing_from_the_left(edge: Edge, p: Point)
    requires
        p.x < edge.a.x,
        p.x < edge.b.x,
    ensures
        crossing(edge, p) == at_or_below(edge.a, p) - at_or_below(edge.b, p),
{
    let (ax, ay, bx, by, px, py) = (edge.a.x as int, edge.a.y as int, edge.b.x as int, edge.b.y as int, p.x as int, p.y as int);
    let cross = edge_cross(edge, p);
    assert(cross == (by - py) * (ax - px) + (py - ay) * (bx - px)) by (nonlinear_arith)
        requires
            cross == (bx - ax) * (py - ay) - (by - ay) * (px - ax),
    ;
    if ay <= py && py < by {
        assert((by - py) * (ax - px) > 0) by (nonlinear_arith)
            requires
                by - py > 0,
                ax - px > 0,
        ;
        assert((py - ay) * (bx - px) >= 0) by (nonlinear_arith)
            requires
                py - ay >= 0,
                bx - px > 0,
        ;
    } else if by <= py && py < ay {
        assert((by - py) * (ax - px) <= 0) by (nonlinear_arith)
            requires
                by - py <= 0,
                ax - px > 0,
        ;
        assert((py - ay) * (bx - px) < 0) by (nonlinear_arith)
            requires
                py - ay < 0,
                bx - px > 0,
        ;
    }
}

/// Whether the edges form one closed contour: each edge starts where the
/// previous one ends, and the last ends where the first starts.
pub open spec fn closed_contour(edges: Seq<Edge>) -> bool {
    &&& edges.len() > 0
    &&& forall|i: int| 0 <= i < edges.len() - 1 ==> (#[trigger] edges[i]).b == edges[i + 1].a
    &&& edges.last().b == edges[0].a
}

proof fn lemma_winding_telescopes(edges: Seq<Edge>, p: Point, n: int)
    requires
        1 <= n <= edges.len(),
        forall|i: int| 0 <= i < edges.len() - 1 ==> (#[trigger] edges[i]).b == edges[i + 1].a,
        forall|i: int| 0 <= i < edges.len() ==> p.x < (#[trigger] edges[i]).a.x && p.x < edges[i].b.x,
    ensures
        winding(edges, p, n) == at_or_below(edges[0].a, p) - at_or_below(edges[n - 1].b, p),
    decreases n,
{
    let e = edges[n - 1];
    assert(p.x < e.a.x && p.x < e.b.x);
    lemma_crossing_from_the_left(e, p);
    assert(winding(edges, p, n) == winding(edges, p, n - 1) + crossing(e, p));
    if n > 1 {
        lemma_winding_telescopes(edges, p, n - 1);
        assert(edges[n - 2].b == edges[n - 1].a);
    } else {
        assert(winding(edges, p, 0) == 0);
    }
}

/// A point to the left of every vertex of a closed contour is outside it
/// under both fill rules: every rise across its height is matched by a
/// fall, so the winding number is zero and the crossings are even.
pub proof fn law_point_left_of_closed_contour_is_outside(edges: Seq<Edge>, p: Point)
    requires
        closed_contour(edges),
        forall|i: int| 0 <= i < edges.len() ==> p.x < (#[trigger] edges[i]).a.x && p.x < edges[i].b.x,
    ensures
        winding(edges, p, edges.len() as int) == 0,
        !inside_spec(edges, p, FillRule::NonZero),
        !inside_spec(edges, p, FillRule::EvenOdd),
{
    lemma_winding_telescopes(edges, p, edges.len() as int);
    lemma_winding_parity(edges, p, edges.len() as int);
}

/// An edge with both endpoints to the right of a point never crosses the
/// ray the point casts to the right.
proof fn lemma_crossing_from_the_right(edge: Edge, p: Point)
    requires
        edge.a.x < p.x,
        edge.b.x < p.x,
    ensures
        crossing(edge, p) == 0,
{
    let (ax, ay, bx, by, px, py) = (edge.a.x as int, edge.a.y as int, edge.b.x as int, edge.b.y as int, p.x as int, p.y as int);
    let cross = edge_cross(edge, p);
    assert(cross == (by - py) * (ax - px) + (py - ay) * (bx - px)) by (nonlinear_arith)
        requires
            cross == (bx - ax) * (py - ay) - (by - ay) * (px - ax),
    ;
    if ay <= py && py < by {
        assert((by - py) * (ax - px) < 0) by (nonlinear_arith)
            requires
                by - py > 0,
                ax - px < 0,
        ;
        assert((py - ay) * (bx - px) <= 0) by (nonlinear_arith)
            requires
                py - ay >= 0,
                bx - px < 0,
        ;
    } else if by <= py && py < ay {
        assert((by - py) * (ax - px) >= 0) by (nonlinear_arith)
            requires
                by - py <= 0,
                ax - px < 0,
        ;
        assert((py - ay) * (bx - px) > 0) by (nonlinear_arith)
            requires
                py - ay < 0,
                bx - px < 0,
        ;
    }
}

proof fn lemma_winding_from_the_right(edges: Seq<Edge>, p: Point, n: int)
    requires
        0 <= n <= edges.len(),
        forall|i: int| 0 <= i < edges.len() ==> (#[trigger] edges[i]).a.x < p.x && edges[i].b.x < p.x,
    ensures
        winding(edges, p, n) == 0,
        crossings(edges, p, n) == 0,
    decreases n,
{
    if n > 0 {
        let e = edges[n - 1];
        assert(e.a.x < p.x && e.b.x < p.x);
        lemma_crossing_from_the_right(e, p);
        lemma_winding_from_the_right(edges, p, n - 1);
    }
}

/// A point to the right of every endpoint is outside any edges under both
/// fill rules: no edge crosses the ray it casts to the right.
pub proof fn law_point_right_of_all_edges_is_outside(edges: Seq<Edge>, p: Point)
    requires
        forall|i: int| 0 <= i < edges.len() ==> (#[trigger] edges[i]).a.x < p.x && edges[i].b.x < p.x,
    ensures
        !inside_spec(edges, p, FillRule::NonZero),
        !inside_spec(edges, p, FillRule::EvenOdd),
{
    lemma_winding_from_the_right(edges, p, edges.len() as int);
}

/// A point inside under the even-odd rule is inside under the non-zero
/// rule too.
pub proof fn law_even_odd_inside_is_nonzero_inside(edges: Seq<Edge>, p: Point)
    ensures
        inside_spec(edges, p, FillRule::EvenOdd) ==> inside_spec(edges, p, FillRule::NonZero),
{
    lemma_winding_parity(edges, p, edges.len() as int);
}

/// Every edge has distinct endpoints.
pub open spec fn edges_have_length(edges: Seq<Edge>) -> bool {
    forall|k: int| 0 <= k < edges.len() ==> (#[trigger] edges[k]).a != edges[k].b
}

proof fn lemma_pushed_keeps_length(edges: Seq<Edge>, a: Point, b: Point)
    requires
        edges_have_length(edges),
    ensures
        pushed_edges(edges, a, b) matches Ok(e) ==> edges_have_length(e),
{
    if a != b && edges.len() < MAX_SEMANTIC_SEGMENTS {
        let e = edges.push(Edge { a, b });
        assert forall|k: int| 0 <= k < e.len() implies (#[trigger] e[k]).a != e[k].b by {
            if k < edges.len() {
                assert(e[k] == edges[k]);
            }
        }
    }
}

proof fn lemma_cubic_keeps_length(edges: Seq<Edge>, p0: Point, p1: Point, p2: Point, p3: Point, n: int)
    requires
        edges_have_length(edges),
    ensures
        cubic_edges(edges, p0, p1, p2, p3, n) matches Ok(e) ==> edges_have_length(e),
    decreases n,
{
    if n > 0 {
        lemma_cubic_keeps_length(edges, p0, p1, p2, p3, n - 1);
        if let Ok(e) = cubic_edges(edges, p0, p1, p2, p3, n - 1) {
            lemma_pushed_keeps_length(e, cubic_prev(p0, p1, p2, p3, n - 1), cubic_point_spec(p0, p1, p2, p3, n));
        }
    }
}

proof fn lemma_walk_keeps_length(commands: Seq<QuantizedCommand>, fill: bool, n: int)
    ensures
        path_walk(commands, fill, n) matches Ok(s) ==> edges_have_length(s.edges),
    decreases n,
{
    if n > 0 {
        lemma_walk_keeps_length(commands, fill, n - 1);
        if let Ok(s) = path_walk(commands, fill, n - 1) {
            match s.current {
                Some(from) => {
                    lemma_pushed_keeps_length(s.edges, from, from);
                    match commands[n - 1] {
                        QuantizedCommand::LineTo { x, y } => {
                            if let Ok(to) = point_of(x, y) {
                                lemma_pushed_keeps_length(s.edges, from, to);
                            }
                        },
                        QuantizedCommand::CubicTo { control1_x, control1_y, control2_x, control2_y, x, y } => {
                            if let (Ok(p1), Ok(p2), Ok(p3)) = (
                                point_of(control1_x, control1_y),
                                point_of(control2_x, control2_y),
                                point_of(x, y),
                            ) {
                                lemma_cubic_keeps_length(s.edges, from, p1, p2, p3, 16);
                            }
                        },
                        _ => {},
                    }
                    if let Some(to) = s.start {
                        lemma_pushed_keeps_length(s.edges, from, to);
                    }
                },
                None => {},
            }
        }
    }
}

/// Every edge a path yields has length, and a path yields between one and
/// `MAX_SEMANTIC_SEGMENTS` edges.
pub proof fn law_path_edges_have_length(commands: Seq<QuantizedCommand>, fill: bool, stroke: bool)
    ensures
        path_edges_spec(commands, fill, stroke) matches Ok(edges) ==> edges_have_length(edges) && 1 <= edges.len()
            <= MAX_SEMANTIC_SEGMENTS,
{
    lemma_walk_keeps_length(commands, fill, commands.len() as int);
    if let Ok(s) = path_walk(commands, fill, commands.len() as int) {
        if let (Some(from), Some(to)) = (s.current, s.start) {
            lemma_pushed_keeps_length(s.edges, from, to);
        }
    }
}

/// After `Close`, every command but a move is rejected.
pub proof fn law_only_move_after_close(state: PathState, command: QuantizedCommand, fill: bool)
    requires
        state.closed,
        !(command is MoveTo),
    ensures
        path_step(state, command, fill) == Err::<PathState, CoreError>(CoreError::InvalidSemanticPath),
{
}

} // verus!
