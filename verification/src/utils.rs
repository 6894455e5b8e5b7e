//! Plane geometry on fixed-point coordinates: interpolation and the
//! segment intersection that both sensing and collision rest on.
use crate::fixed::{
    in_world, is_ratio, lemma_scaled, magnitude, quotient_of, scaled, ONE, WORLD_LIMIT,
};
use crate::pairs::cyclic_pairs;
use vstd::prelude::*;

verus! {

/// A point `(x, y)`.
pub type Point = (i64, i64);

/// A segment from its first point to its second.
pub type Segment = (Point, Point);

/// Where a ray meets an edge: the point, and how far along the ray it lies
/// (0.0 at the ray's start, 1.0 at its end).
#[derive(Debug, Clone, Copy, PartialEq, Eq, Structural)]
pub struct IntersectionPoint {
    pub x: i64,
    pub y: i64,
    pub offset: i64,
}

/// Both coordinates are ones the geometry accepts.
pub open spec fn point_in_world(p: Point) -> bool {
    in_world(p.0 as int) && in_world(p.1 as int)
}

/// Both ends are points the geometry accepts.
pub open spec fn segment_in_world(s: Segment) -> bool {
    point_in_world(s.0) && point_in_world(s.1)
}

/// Every point is one the geometry accepts.
pub open spec fn points_in_world(points: Seq<Point>) -> bool {
    forall|i: int| 0 <= i < points.len() ==> point_in_world(#[trigger] points[i])
}

/// Every segment is one the geometry accepts.
pub open spec fn segments_in_world(segments: Seq<Segment>) -> bool {
    forall|i: int| 0 <= i < segments.len() ==> segment_in_world(#[trigger] segments[i])
}

/// `a + t * (b - a)`.
pub open spec fn lerp_spec(a: int, b: int, t: int) -> int {
    a + scaled(t, b - a)
}

/// Interpolation stays between its ends and reaches them at 0.0 and 1.0.
pub proof fn lemma_lerp(a: int, b: int, t: int)
    requires
        is_ratio(t),
    ensures
        a <= b ==> a <= lerp_spec(a, b, t) <= b,
        b <= a ==> b <= lerp_spec(a, b, t) <= a,
        lerp_spec(a, b, 0) == a,
        lerp_spec(a, b, ONE as int) == b,
{
    lemma_scaled(t, b - a);
}

/// The point at ratio `t` between `a` and `b`: `a + t * (b - a)`.
pub fn lerp(a: i64, b: i64, t: i64) -> (r: i64)
    requires
        is_ratio(t as int),
    ensures
        r == lerp_spec(a as int, b as int, t as int),
{
    let diff: i128 = (b as i128) - (a as i128);
    proof {
        lemma_lerp(a as int, b as int, t as int);
    }
    let product: i128 = (t as i128) * diff;
    let step: i128 = quotient_of(product, ONE as i128);
    ((a as i128) + step) as i64
}

/// Numerator of the ray's parameter: the crossing lies at
/// `ray_numerator / denominator` of the way from `a` to `b`.
pub open spec fn ray_numerator(a: Point, b: Point, c: Point, d: Point) -> int {
    (d.0 - c.0) * (a.1 - c.1) - (d.1 - c.1) * (a.0 - c.0)
}

/// Numerator of the edge's parameter: the crossing lies at
/// `edge_numerator / denominator` of the way from `c` to `d`.
pub open spec fn edge_numerator(a: Point, b: Point, c: Point, d: Point) -> int {
    (c.1 - a.1) * (a.0 - b.0) - (c.0 - a.0) * (a.1 - b.1)
}

/// The determinant of the two directions; zero when they are parallel.
pub open spec fn denominator(a: Point, b: Point, c: Point, d: Point) -> int {
    (d.1 - c.1) * (b.0 - a.0) - (d.0 - c.0) * (b.1 - a.1)
}

/// `0 <= n / d <= 1` for a nonzero `d`, without dividing.
pub open spec fn within_unit(n: int, d: int) -> bool {
    (d > 0 && 0 <= n <= d) || (d < 0 && d <= n <= 0)
}

/// The segments `a -> b` and `c -> d` are not parallel and meet at a point
/// of both.
pub open spec fn segments_cross(a: Point, b: Point, c: Point, d: Point) -> bool {
    &&& denominator(a, b, c, d) != 0
    &&& within_unit(ray_numerator(a, b, c, d), denominator(a, b, c, d))
    &&& within_unit(edge_numerator(a, b, c, d), denominator(a, b, c, d))
}

/// How far along `a -> b` the crossing lies, rounded down to a millionth.
pub open spec fn crossing_offset(a: Point, b: Point, c: Point, d: Point) -> int {
    (magnitude(ray_numerator(a, b, c, d)) * ONE) / magnitude(denominator(a, b, c, d))
}

/// The crossing of `a -> b` with `c -> d`, if there is one.
pub open spec fn intersection(a: Point, b: Point, c: Point, d: Point) -> Option<IntersectionPoint> {
    if segments_cross(a, b, c, d) {
        let offset = crossing_offset(a, b, c, d);
        Some(
            IntersectionPoint {
                x: lerp_spec(a.0 as int, b.0 as int, offset) as i64,
                y: lerp_spec(a.1 as int, b.1 as int, offset) as i64,
                offset: offset as i64,
            },
        )
    } else {
        None
    }
}

/// The point at parameter `ray_numerator / denominator` of `a -> b` is the
/// point at parameter `edge_numerator / denominator` of `c -> d`: with both
/// parameters between 0 and 1 it lies on both segments. Stated without
/// division, every term multiplied by the denominator.
pub proof fn lemma_crossing_lies_on_both(a: Point, b: Point, c: Point, d: Point)
    ensures
        denominator(a, b, c, d) * a.0 + ray_numerator(a, b, c, d) * (b.0 - a.0) == denominator(
            a,
            b,
            c,
            d,
        ) * c.0 + edge_numerator(a, b, c, d) * (d.0 - c.0),
        denominator(a, b, c, d) * a.1 + ray_numerator(a, b, c, d) * (b.1 - a.1) == denominator(
            a,
            b,
            c,
            d,
        ) * c.1 + edge_numerator(a, b, c, d) * (d.1 - c.1),
{
    let p = b.0 - a.0;
    let q = b.1 - a.1;
    let r = d.0 - c.0;
    let s = d.1 - c.1;
    let e = a.0 - c.0;
    let f = a.1 - c.1;
    let bottom = denominator(a, b, c, d);
    let u = edge_numerator(a, b, c, d);
    assert(u == f * p - e * q) by (nonlinear_arith)
        requires
            u == (-f) * (-p) - (-e) * (-q),
    ;
    lemma_cramer(p, q, r, s, e, f);
    assert(bottom * a.0 == bottom * c.0 + bottom * e) by (nonlinear_arith)
        requires
            e == a.0 - c.0,
    ;
    assert(bottom * a.1 == bottom * c.1 + bottom * f) by (nonlinear_arith)
        requires
            f == a.1 - c.1,
    ;
}

/// The identity behind the intersection formula, over the two directions
/// `(p, q)` and `(r, s)` and the offset `(e, f)` between the starts.
proof fn lemma_cramer(p: int, q: int, r: int, s: int, e: int, f: int)
    ensures
        (s * p - r * q) * e + (r * f - s * e) * p == (f * p - e * q) * r,
        (s * p - r * q) * f + (r * f - s * e) * q == (f * p - e * q) * s,
{
    assert((s * p - r * q) * e == s * p * e - r * q * e) by (nonlinear_arith);
    assert((r * f - s * e) * p == r * f * p - s * e * p) by (nonlinear_arith);
    assert((f * p - e * q) * r == f * p * r - e * q * r) by (nonlinear_arith);
    assert(s * p * e == s * e * p) by (nonlinear_arith);
    assert(r * q * e == e * q * r) by (nonlinear_arith);
    assert(r * f * p == f * p * r) by (nonlinear_arith);
    assert((s * p - r * q) * f == s * p * f - r * q * f) by (nonlinear_arith);
    assert((r * f - s * e) * q == r * f * q - s * e * q) by (nonlinear_arith);
    assert((f * p - e * q) * s == f * p * s - e * q * s) by (nonlinear_arith);
    assert(s * p * f == f * p * s) by (nonlinear_arith);
    assert(r * q * f == r * f * q) by (nonlinear_arith);
    assert(s * e * q == e * q * s) by (nonlinear_arith);
}

/// Parallel segments do not cross.
pub proof fn lemma_parallel_never_cross(a: Point, b: Point, c: Point, d: Point)
    requires
        denominator(a, b, c, d) == 0,
    ensures
        !segments_cross(a, b, c, d),
        intersection(a, b, c, d) is None,
{
}

/// A crossing's offset is a ratio, and its point lies within the ray's
/// bounding box.
pub proof fn lemma_intersection_bounds(a: Point, b: Point, c: Point, d: Point)
    requires
        segments_cross(a, b, c, d),
    ensures
        is_ratio(crossing_offset(a, b, c, d)),
        intersection(a, b, c, d) matches Some(p) && {
            &&& p.offset == crossing_offset(a, b, c, d)
            &&& p.x == lerp_spec(a.0 as int, b.0 as int, p.offset as int)
            &&& p.y == lerp_spec(a.1 as int, b.1 as int, p.offset as int)
            &&& (a.0 <= b.0 ==> a.0 <= p.x <= b.0)
            &&& (b.0 <= a.0 ==> b.0 <= p.x <= a.0)
            &&& (a.1 <= b.1 ==> a.1 <= p.y <= b.1)
            &&& (b.1 <= a.1 ==> b.1 <= p.y <= a.1)
        },
{
    let n = magnitude(ray_numerator(a, b, c, d));
    let m = magnitude(denominator(a, b, c, d));
    let one = ONE as int;
    assert(0 <= (n * one) / m <= one) by (nonlinear_arith)
        requires
            0 <= n * one <= m * one,
            m > 0,
    ;
    let offset = crossing_offset(a, b, c, d);
    lemma_lerp(a.0 as int, b.0 as int, offset);
    lemma_lerp(a.1 as int, b.1 as int, offset);
}

/// The point that is returned for a crossing is the exact crossing but
/// for rounding: along each axis it lies less than one millionth, and a
/// millionth of the ray's extent, from the point of both segments that
/// `lemma_crossing_lies_on_both` speaks of. Stated without division: the
/// distance, multiplied by the denominator and by `ONE`, against the
/// bound multiplied alike.
pub proof fn lemma_intersection_is_near_the_crossing(a: Point, b: Point, c: Point, d: Point)
    requires
        segments_cross(a, b, c, d),
    ensures
        intersection(a, b, c, d) matches Some(p) && {
            let m = magnitude(denominator(a, b, c, d));
            let n = magnitude(ray_numerator(a, b, c, d));
            &&& magnitude(m * ONE * (p.x - a.0) - ONE * n * (b.0 - a.0)) < m * (ONE + magnitude(
                b.0 - a.0,
            ))
            &&& magnitude(m * ONE * (p.y - a.1) - ONE * n * (b.1 - a.1)) < m * (ONE + magnitude(
                b.1 - a.1,
            ))
        },
{
    lemma_intersection_bounds(a, b, c, d);
    let m = magnitude(denominator(a, b, c, d));
    let n = magnitude(ray_numerator(a, b, c, d));
    let offset = crossing_offset(a, b, c, d);
    let p = intersection(a, b, c, d).unwrap();
    assert(n * ONE - offset * m >= 0 && n * ONE - offset * m < m) by (nonlinear_arith)
        requires
            offset == (n * ONE) / m,
            m > 0,
            n >= 0,
    ;
    lemma_rounded_step(m, n, offset, b.0 - a.0, p.x - a.0);
    lemma_rounded_step(m, n, offset, b.1 - a.1, p.y - a.1);
}

/// The rounding of one coordinate of a crossing: `step` is `offset * extent`
/// in fixed point, `offset` is `n / m` rounded down to a millionth.
proof fn lemma_rounded_step(m: int, n: int, offset: int, extent: int, step: int)
    requires
        m > 0,
        0 <= n * ONE - offset * m < m,
        is_ratio(offset),
        step == scaled(offset, extent),
    ensures
        magnitude(m * ONE * step - ONE * n * extent) < m * (ONE + magnitude(extent)),
{
    let one = ONE as int;
    crate::fixed::lemma_quotient(offset * extent, one);
    let r1 = one * step - offset * extent;
    let r2 = n * one - offset * m;
    assert(m * r1 == m * one * step - m * (offset * extent)) by (nonlinear_arith)
        requires
            r1 == one * step - offset * extent,
    ;
    assert(extent * r2 == one * n * extent - m * (offset * extent)) by (nonlinear_arith)
        requires
            r2 == n * one - offset * m,
    ;
    assert(-(m * one) < m * r1 < m * one) by (nonlinear_arith)
        requires
            m > 0,
            -one < r1 < one,
    ;
    let e = magnitude(extent);
    assert(-(m * e) <= extent * r2 <= m * e) by (nonlinear_arith)
        requires
            0 <= r2 < m,
            e == magnitude(extent),
    ;
    assert(m * (one + e) == m * one + m * e) by (nonlinear_arith);
}

/// The lesser of two coordinates.
pub open spec fn lower(a: int, b: int) -> int {
    if a <= b {
        a
    } else {
        b
    }
}

/// The greater of two coordinates.
pub open spec fn upper(a: int, b: int) -> int {
    if a <= b {
        b
    } else {
        a
    }
}

/// A point `t / d` of the way from `a` to `b`, with `0 <= t <= d`, lies
/// between the two. Stated without division.
proof fn lemma_between(d: int, t: int, a: int, b: int)
    requires
        d > 0,
        0 <= t <= d,
    ensures
        d * lower(a, b) <= d * a + t * (b - a) <= d * upper(a, b),
{
    if a <= b {
        assert(0 <= t * (b - a) <= d * (b - a)) by (nonlinear_arith)
            requires
                0 <= t <= d,
                b - a >= 0,
        ;
        assert(d * a + d * (b - a) == d * b) by (nonlinear_arith);
    } else {
        assert(d * (b - a) <= t * (b - a) <= 0) by (nonlinear_arith)
            requires
                0 <= t <= d,
                b - a <= 0,
        ;
        assert(d * a + d * (b - a) == d * b) by (nonlinear_arith);
    }
}

/// Two ranges of which each holds the same multiple of a point overlap.
proof fn lemma_ranges_meet(d: int, p: int, lo1: int, hi1: int, lo2: int, hi2: int)
    requires
        d > 0,
        d * lo1 <= p <= d * hi1,
        d * lo2 <= p <= d * hi2,
    ensures
        lo1 <= hi2,
        lo2 <= hi1,
{
    if lo1 > hi2 {
        assert(d * lo1 > d * hi2) by (nonlinear_arith)
            requires
                d > 0,
                lo1 > hi2,
        ;
    }
    if lo2 > hi1 {
        assert(d * lo2 > d * hi1) by (nonlinear_arith)
            requires
                d > 0,
                lo2 > hi1,
        ;
    }
}

/// Segments that cross share a point, so along each axis their extents
/// overlap.
pub proof fn lemma_crossing_needs_overlap(a: Point, b: Point, c: Point, d: Point)
    requires
        segments_cross(a, b, c, d),
    ensures
        lower(a.0 as int, b.0 as int) <= upper(c.0 as int, d.0 as int),
        lower(c.0 as int, d.0 as int) <= upper(a.0 as int, b.0 as int),
        lower(a.1 as int, b.1 as int) <= upper(c.1 as int, d.1 as int),
        lower(c.1 as int, d.1 as int) <= upper(a.1 as int, b.1 as int),
{
    lemma_crossing_lies_on_both(a, b, c, d);
    let bottom = denominator(a, b, c, d);
    let t = ray_numerator(a, b, c, d);
    let u = edge_numerator(a, b, c, d);
    if bottom > 0 {
        lemma_between(bottom, t, a.0 as int, b.0 as int);
        lemma_between(bottom, u, c.0 as int, d.0 as int);
        lemma_between(bottom, t, a.1 as int, b.1 as int);
        lemma_between(bottom, u, c.1 as int, d.1 as int);
        lemma_ranges_meet(
            bottom,
            bottom * a.0 + t * (b.0 - a.0),
            lower(a.0 as int, b.0 as int),
            upper(a.0 as int, b.0 as int),
            lower(c.0 as int, d.0 as int),
            upper(c.0 as int, d.0 as int),
        );
        lemma_ranges_meet(
            bottom,
            bottom * a.1 + t * (b.1 - a.1),
            lower(a.1 as int, b.1 as int),
            upper(a.1 as int, b.1 as int),
            lower(c.1 as int, d.1 as int),
            upper(c.1 as int, d.1 as int),
        );
    } else {
        let m = -bottom;
        lemma_between(m, -t, a.0 as int, b.0 as int);
        lemma_between(m, -u, c.0 as int, d.0 as int);
        lemma_between(m, -t, a.1 as int, b.1 as int);
        lemma_between(m, -u, c.1 as int, d.1 as int);
        assert(m * a.0 + (-t) * (b.0 - a.0) == -(bottom * a.0 + t * (b.0 - a.0))) by (nonlinear_arith)
            requires
                m == -bottom,
        ;
        assert(m * c.0 + (-u) * (d.0 - c.0) == -(bottom * c.0 + u * (d.0 - c.0))) by (nonlinear_arith)
            requires
                m == -bottom,
        ;
        assert(m * a.1 + (-t) * (b.1 - a.1) == -(bottom * a.1 + t * (b.1 - a.1))) by (nonlinear_arith)
            requires
                m == -bottom,
        ;
        assert(m * c.1 + (-u) * (d.1 - c.1) == -(bottom * c.1 + u * (d.1 - c.1))) by (nonlinear_arith)
            requires
                m == -bottom,
        ;
        lemma_ranges_meet(
            m,
            m * a.0 + (-t) * (b.0 - a.0),
            lower(a.0 as int, b.0 as int),
            upper(a.0 as int, b.0 as int),
            lower(c.0 as int, d.0 as int),
            upper(c.0 as int, d.0 as int),
        );
        lemma_ranges_meet(
            m,
            m * a.1 + (-t) * (b.1 - a.1),
            lower(a.1 as int, b.1 as int),
            upper(a.1 as int, b.1 as int),
            lower(c.1 as int, d.1 as int),
            upper(c.1 as int, d.1 as int),
        );
    }
}

/// A product of two coordinate differences fits comfortably in 128 bits.
proof fn lemma_difference_product(x: int, y: int)
    requires
        -2 * WORLD_LIMIT <= x <= 2 * WORLD_LIMIT,
        -2 * WORLD_LIMIT <= y <= 2 * WORLD_LIMIT,
    ensures
        -4_000_000_000_000_000_000_000_000_000_000 <= x * y
            <= 4_000_000_000_000_000_000_000_000_000_000,
{
    assert(-4_000_000_000_000_000_000_000_000_000_000 <= x * y
        <= 4_000_000_000_000_000_000_000_000_000_000) by (nonlinear_arith)
        requires
            -2_000_000_000_000_000 <= x <= 2_000_000_000_000_000,
            -2_000_000_000_000_000 <= y <= 2_000_000_000_000_000,
    ;
}

/// `0 <= n / d <= 1` for a nonzero `d`.
fn is_within_unit(n: i128, d: i128) -> (r: bool)
    ensures
        r == within_unit(n as int, d as int),
{
    (d > 0 && 0 <= n && n <= d) || (d < 0 && d <= n && n <= 0)
}

/// Where the ray `a -> b` meets the edge `c -> d`.
///
/// `None` when the two are parallel or when the lines meet outside either
/// segment. Otherwise the crossing point, with the fraction of the ray at
/// which it lies as `offset`: the key by which the nearest of several hits
/// is chosen.
pub fn get_intersection(a: Point, b: Point, c: Point, d: Point) -> (hit: Option<IntersectionPoint>)
    requires
        point_in_world(a),
        point_in_world(b),
        point_in_world(c),
        point_in_world(d),
    ensures
        hit == intersection(a, b, c, d),
        hit is Some <==> segments_cross(a, b, c, d),
{
    let dcx: i128 = (d.0 as i128) - (c.0 as i128);
    let dcy: i128 = (d.1 as i128) - (c.1 as i128);
    let acx: i128 = (a.0 as i128) - (c.0 as i128);
    let acy: i128 = (a.1 as i128) - (c.1 as i128);
    let bax: i128 = (b.0 as i128) - (a.0 as i128);
    let bay: i128 = (b.1 as i128) - (a.1 as i128);
    proof {
        lemma_difference_product(dcx as int, acy as int);
        lemma_difference_product(dcy as int, acx as int);
        lemma_difference_product(-acy as int, -bax as int);
        lemma_difference_product(-acx as int, -bay as int);
        lemma_difference_product(dcy as int, bax as int);
        lemma_difference_product(dcx as int, bay as int);
    }
    let t_top: i128 = dcx * acy - dcy * acx;
    let u_top: i128 = (-acy) * (-bax) - (-acx) * (-bay);
    let bottom: i128 = dcy * bax - dcx * bay;
    if bottom == 0 {
        return None;
    }
    if !(is_within_unit(t_top, bottom) && is_within_unit(u_top, bottom)) {
        return None;
    }
    proof {
        lemma_intersection_bounds(a, b, c, d);
    }
    let n: i128 = if t_top < 0 {
        -t_top
    } else {
        t_top
    };
    let m: i128 = if bottom < 0 {
        -bottom
    } else {
        bottom
    };
    let offset: i128 = (n * (ONE as i128)) / m;
    let offset: i64 = offset as i64;
    Some(IntersectionPoint { x: lerp(a.0, b.0, offset), y: lerp(a.1, b.1, offset), offset })
}

/// The `i`-th edge of a polygon: from corner `i` to the next one, the last
/// corner joined to the first.
pub open spec fn edge(polygon: Seq<Point>, i: int) -> Segment {
    (polygon[i], polygon[(i + 1) % (polygon.len() as int)])
}

/// Two segments cross.
pub open spec fn crosses(s: Segment, t: Segment) -> bool {
    segments_cross(s.0, s.1, t.0, t.1)
}

/// Some edge of the polygon crosses some border.
pub open spec fn polygon_crosses_borders(polygon: Seq<Point>, borders: Seq<Segment>) -> bool {
    exists|i: int, j: int|
        0 <= i < polygon.len() && 0 <= j < borders.len() && #[trigger] crosses(
            edge(polygon, i),
            borders[j],
        )
}

/// Some edge of the first polygon crosses some edge of the second.
pub open spec fn polygons_cross(first: Seq<Point>, second: Seq<Point>) -> bool {
    exists|i: int, j: int|
        0 <= i < first.len() && 0 <= j < second.len() && #[trigger] crosses(
            edge(first, i),
            edge(second, j),
        )
}

/// The edges of a polygon, in order.
pub fn polygon_edges(polygon: &[Point]) -> (edges: Vec<Segment>)
    ensures
        edges@.len() == polygon@.len(),
        forall|i: int| 0 <= i < polygon@.len() ==> #[trigger] edges@[i] == edge(polygon@, i),
{
    cyclic_pairs(polygon)
}

/// An edge of a polygon within the world is a segment within the world.
pub proof fn lemma_edge_in_world(polygon: Seq<Point>, i: int)
    requires
        points_in_world(polygon),
        0 <= i < polygon.len(),
    ensures
        segment_in_world(edge(polygon, i)),
{
}

/// Whether any edge of the polygon crosses any of the borders.
pub fn poly_intersection_with_borders(poly1: &[Point], borders: &[Segment]) -> (hit: bool)
    requires
        points_in_world(poly1@),
        segments_in_world(borders@),
    ensures
        hit == polygon_crosses_borders(poly1@, borders@),
{
    let edges = polygon_edges(poly1);
    let mut i: usize = 0;
    while i < edges.len()
        invariant
            i <= edges@.len(),
            edges@.len() == poly1@.len(),
            forall|k: int| 0 <= k < poly1@.len() ==> #[trigger] edges@[k] == edge(poly1@, k),
            points_in_world(poly1@),
            segments_in_world(borders@),
            forall|k: int, j: int|
                0 <= k < i && 0 <= j < borders@.len() ==> !#[trigger] crosses(
                    edge(poly1@, k),
                    borders@[j],
                ),
        decreases edges@.len() - i,
    {
        let side = edges[i];
        let mut j: usize = 0;
        while j < borders.len()
            invariant
                j <= borders@.len(),
                i < edges@.len(),
                edges@.len() == poly1@.len(),
                side == edge(poly1@, i as int),
                segment_in_world(side),
                segments_in_world(borders@),
                forall|k: int, l: int|
                    0 <= k < i && 0 <= l < borders@.len() ==> !#[trigger] crosses(
                        edge(poly1@, k),
                        borders@[l],
                    ),
                forall|l: int| 0 <= l < j ==> !#[trigger] crosses(side, borders@[l]),
            decreases borders@.len() - j,
        {
            let border = borders[j];
            if get_intersection(side.0, side.1, border.0, border.1).is_some() {
                assert(crosses(edge(poly1@, i as int), borders@[j as int]));
                return true;
            }
            j += 1;
        }
        i += 1;
    }
    false
}

/// Whether any edge of the first polygon crosses any edge of the second.
pub fn poly_intersection_with_poly(poly1: &[Point], poly2: &[Point]) -> (hit: bool)
    requires
        points_in_world(poly1@),
        points_in_world(poly2@),
    ensures
        hit == polygons_cross(poly1@, poly2@),
{
    let edges = polygon_edges(poly1);
    let others = polygon_edges(poly2);
    let mut i: usize = 0;
    while i < edges.len()
        invariant
            i <= edges@.len(),
            edges@.len() == poly1@.len(),
            others@.len() == poly2@.len(),
            forall|k: int| 0 <= k < poly1@.len() ==> #[trigger] edges@[k] == edge(poly1@, k),
            forall|k: int| 0 <= k < poly2@.len() ==> #[trigger] others@[k] == edge(poly2@, k),
            points_in_world(poly1@),
            points_in_world(poly2@),
            forall|k: int, j: int|
                0 <= k < i && 0 <= j < poly2@.len() ==> !#[trigger] crosses(
                    edge(poly1@, k),
                    edge(poly2@, j),
                ),
        decreases edges@.len() - i,
    {
        let side = edges[i];
        let mut j: usize = 0;
        while j < others.len()
            invariant
                j <= others@.len(),
                i < edges@.len(),
                edges@.len() == poly1@.len(),
                others@.len() == poly2@.len(),
                forall|k: int| 0 <= k < poly2@.len() ==> #[trigger] others@[k] == edge(poly2@, k),
                side == edge(poly1@, i as int),
                segment_in_world(side),
                points_in_world(poly2@),
                forall|k: int, l: int|
                    0 <= k < i && 0 <= l < poly2@.len() ==> !#[trigger] crosses(
                        edge(poly1@, k),
                        edge(poly2@, l),
                    ),
                forall|l: int| 0 <= l < j ==> !#[trigger] crosses(side, edge(poly2@, l)),
            decreases others@.len() - j,
        {
            let other = others[j];
            if get_intersection(side.0, side.1, other.0, other.1).is_some() {
                assert(crosses(edge(poly1@, i as int), edge(poly2@, j as int)));
                return true;
            }
            j += 1;
        }
        i += 1;
    }
    false
}

} // verus!
