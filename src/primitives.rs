//! Screen-space triangles: barycentric coordinates and bounding boxes.
use vstd::prelude::*;
use crate::space::ScreenPoint;

verus! {

/// The largest coordinate magnitude that barycentric solving takes: its
/// products of dot products must fit in 128 bits.
pub const COORD_LIMIT: i32 = 536870912;

/// An axis-aligned rectangle given by its corners, `min ≤ max` per axis.
#[derive(Clone, Copy, Debug, PartialEq, Eq, Structural)]
pub struct Rect {
    pub min: ScreenPoint,
    pub max: ScreenPoint,
}

/// Barycentric weights `(u, v, w) / denominator` of a point with respect to
/// the triangle's vertices `A`, `B`, `C`; the denominator is positive.
#[derive(Clone, Copy, Debug, PartialEq, Eq, Structural)]
pub struct Barycentric {
    pub u: i128,
    pub v: i128,
    pub w: i128,
    pub denominator: i128,
}

struct BarycentricPrecomputes {
    ab_edge: (i64, i64),
    ac_edge: (i64, i64),
    dot_ab: i128,
    dot_ac: i128,
    dot_ab_ac: i128,
    cramer_denominator: i128,
}

/// A triangle in screen space with the data that barycentric solving reuses.
pub struct PolygonPoints2 {
    points: [ScreenPoint; 3],
    barycentric_precomputes: BarycentricPrecomputes,
}

/// The coordinates of `p` are within `COORD_LIMIT` in magnitude.
pub open spec fn coord_ok(p: ScreenPoint) -> bool {
    -COORD_LIMIT <= p.x <= COORD_LIMIT && -COORD_LIMIT <= p.y <= COORD_LIMIT
}

/// The vector from `p` to `q`.
pub open spec fn edge(p: ScreenPoint, q: ScreenPoint) -> (int, int) {
    (q.x - p.x, q.y - p.y)
}

pub open spec fn dot(a: (int, int), b: (int, int)) -> int {
    a.0 * b.0 + a.1 * b.1
}

/// The z component of the cross product of two plane vectors.
pub open spec fn cross(a: (int, int), b: (int, int)) -> int {
    a.0 * b.1 - a.1 * b.0
}

/// Cramer's denominator of the normal equations `|AB|²·|AC|² − (AB·AC)²`.
pub open spec fn cramer_denominator(a: ScreenPoint, b: ScreenPoint, c: ScreenPoint) -> int {
    let ab = edge(a, b);
    let ac = edge(a, c);
    dot(ab, ab) * dot(ac, ac) - dot(ab, ac) * dot(ab, ac)
}

/// The weight of `B`, times the denominator.
pub open spec fn weight_b(a: ScreenPoint, b: ScreenPoint, c: ScreenPoint, p: ScreenPoint) -> int {
    let ab = edge(a, b);
    let ac = edge(a, c);
    let ap = edge(a, p);
    dot(ac, ac) * dot(ap, ab) - dot(ab, ac) * dot(ap, ac)
}

/// The weight of `C`, times the denominator.
pub open spec fn weight_c(a: ScreenPoint, b: ScreenPoint, c: ScreenPoint, p: ScreenPoint) -> int {
    let ab = edge(a, b);
    let ac = edge(a, c);
    let ap = edge(a, p);
    dot(ab, ab) * dot(ap, ac) - dot(ab, ac) * dot(ap, ab)
}

/// The barycentric weights of `p` as `(u, v, w, denominator)` when the
/// triangle is not degenerate and `p` lies in it or on its boundary.
pub open spec fn barycentric_of(a: ScreenPoint, b: ScreenPoint, c: ScreenPoint, p: ScreenPoint) -> Option<
    (int, int, int, int),
> {
    let d = cramer_denominator(a, b, c);
    let v = weight_b(a, b, c, p);
    let w = weight_c(a, b, c, p);
    let u = d - v - w;
    if d == 0 {
        None
    } else if u >= 0 && v >= 0 && w >= 0 {
        Some((u, v, w, d))
    } else {
        None
    }
}

impl Barycentric {
    /// The weights and their denominator as integers.
    pub open spec fn parts(self) -> (int, int, int, int) {
        (self.u as int, self.v as int, self.w as int, self.denominator as int)
    }
}

/// The dot product of two edge vectors.
fn dot_edges(a: (i64, i64), b: (i64, i64)) -> (r: i128)
    requires
        -1073741824 <= a.0 <= 1073741824,
        -1073741824 <= a.1 <= 1073741824,
        -1073741824 <= b.0 <= 1073741824,
        -1073741824 <= b.1 <= 1073741824,
    ensures
        r == dot((a.0 as int, a.1 as int), (b.0 as int, b.1 as int)),
        -2305843009213693952 <= r <= 2305843009213693952,
{
    proof {
        lemma_product_bound(a.0 as int, b.0 as int, 1073741824);
        lemma_product_bound(a.1 as int, b.1 as int, 1073741824);
    }
    a.0 as i128 * b.0 as i128 + a.1 as i128 * b.1 as i128
}

/// `|x·y| ≤ k²` when `|x|, |y| ≤ k`.
proof fn lemma_product_bound(x: int, y: int, k: int)
    requires
        -k <= x <= k,
        -k <= y <= k,
    ensures
        -(k * k) <= x * y <= k * k,
{
    assert(-(k * k) <= x * y <= k * k) by (nonlinear_arith)
        requires
            -k <= x <= k,
            -k <= y <= k,
    ;
}

/// The vector from `p` to `q`, exactly.
fn edge_of(p: ScreenPoint, q: ScreenPoint) -> (r: (i64, i64))
    ensures
        (r.0 as int, r.1 as int) == edge(p, q),
{
    (q.x as i64 - p.x as i64, q.y as i64 - p.y as i64)
}

impl PolygonPoints2 {
    /// The precomputed data belongs to the three points.
    pub closed spec fn wf(&self) -> bool {
        let a = self.points[0];
        let b = self.points[1];
        let c = self.points[2];
        let pre = self.barycentric_precomputes;
        &&& coord_ok(a) && coord_ok(b) && coord_ok(c)
        &&& (pre.ab_edge.0 as int, pre.ab_edge.1 as int) == edge(a, b)
        &&& (pre.ac_edge.0 as int, pre.ac_edge.1 as int) == edge(a, c)
        &&& pre.dot_ab == dot(edge(a, b), edge(a, b))
        &&& pre.dot_ac == dot(edge(a, c), edge(a, c))
        &&& pre.dot_ab_ac == dot(edge(a, b), edge(a, c))
        &&& pre.cramer_denominator == cramer_denominator(a, b, c)
        &&& -2305843009213693952 <= pre.dot_ab <= 2305843009213693952
        &&& -2305843009213693952 <= pre.dot_ac <= 2305843009213693952
        &&& -2305843009213693952 <= pre.dot_ab_ac <= 2305843009213693952
    }

    /// The vertices `A`, `B`, `C`.
    pub closed spec fn vertices(&self) -> (ScreenPoint, ScreenPoint, ScreenPoint) {
        (self.points[0], self.points[1], self.points[2])
    }

    /// Precomputes the edges `AB`, `AC`, their dot products and Cramer's
    /// denominator for the triangle `points[0]`, `points[1]`, `points[2]`.
    pub fn new(points: [ScreenPoint; 3]) -> (r: PolygonPoints2)
        requires
            coord_ok(points[0]),
            coord_ok(points[1]),
            coord_ok(points[2]),
        ensures
            r.wf(),
            r.vertices() == (points[0], points[1], points[2]),
    {
        let ab_edge = edge_of(points[0], points[1]);
        let ac_edge = edge_of(points[0], points[2]);
        let dot_ab = dot_edges(ab_edge, ab_edge);
        let dot_ac = dot_edges(ac_edge, ac_edge);
        let dot_ab_ac = dot_edges(ab_edge, ac_edge);
        proof {
            lemma_product_bound(dot_ab as int, dot_ac as int, 2305843009213693952);
            lemma_product_bound(dot_ab_ac as int, dot_ab_ac as int, 2305843009213693952);
        }
        let cramer_denominator = dot_ab * dot_ac - dot_ab_ac * dot_ab_ac;
        PolygonPoints2 {
            points,
            barycentric_precomputes: BarycentricPrecomputes {
                ab_edge,
                ac_edge,
                dot_ab,
                dot_ac,
                dot_ab_ac,
                cramer_denominator,
            },
        }
    }

    /// The barycentric weights of `probe_point`: `None` for a degenerate
    /// (collinear) triangle or a point outside the triangle; on its boundary
    /// a point counts as inside.
    pub fn barycentric(&self, probe_point: ScreenPoint) -> (r: Option<Barycentric>)
        requires
            self.wf(),
            coord_ok(probe_point),
        ensures
            ({
                let (a, b, c) = self.vertices();
                match r {
                    Some(bc) => barycentric_of(a, b, c, probe_point) == Some(bc.parts()),
                    None => barycentric_of(a, b, c, probe_point) is None,
                }
            }),
    {
        let pre = &self.barycentric_precomputes;
        if pre.cramer_denominator == 0 {
            return None;
        }
        let ap_vec = edge_of(self.points[0], probe_point);
        let dot_ap_ab = dot_edges(ap_vec, pre.ab_edge);
        let dot_ap_ac = dot_edges(ap_vec, pre.ac_edge);
        proof {
            lemma_product_bound(pre.dot_ac as int, dot_ap_ab as int, 2305843009213693952);
            lemma_product_bound(pre.dot_ab_ac as int, dot_ap_ac as int, 2305843009213693952);
            lemma_product_bound(pre.dot_ab as int, dot_ap_ac as int, 2305843009213693952);
            lemma_product_bound(pre.dot_ab_ac as int, dot_ap_ab as int, 2305843009213693952);
            lemma_product_bound(pre.dot_ab as int, pre.dot_ac as int, 2305843009213693952);
            lemma_product_bound(pre.dot_ab_ac as int, pre.dot_ab_ac as int, 2305843009213693952);
        }
        let v = pre.dot_ac * dot_ap_ab - pre.dot_ab_ac * dot_ap_ac;
        let w = pre.dot_ab * dot_ap_ac - pre.dot_ab_ac * dot_ap_ab;
        let u = pre.cramer_denominator - v - w;
        if u >= 0 && v >= 0 && w >= 0 {
            Some(Barycentric { u, v, w, denominator: pre.cramer_denominator })
        } else {
            None
        }
    }

    /// The smallest axis-aligned rectangle that holds the three points.
    pub fn bounding_box(&self) -> (r: Rect)
        ensures
            ({
                let (a, b, c) = self.vertices();
                &&& r.min.x == min3(a.x as int, b.x as int, c.x as int)
                &&& r.min.y == min3(a.y as int, b.y as int, c.y as int)
                &&& r.max.x == max3(a.x as int, b.x as int, c.x as int)
                &&& r.max.y == max3(a.y as int, b.y as int, c.y as int)
            }),
    {
        let a = self.points[0];
        let b = self.points[1];
        let c = self.points[2];
        let min_x = if a.x <= b.x && a.x <= c.x { a.x } else if b.x <= c.x { b.x } else { c.x };
        let min_y = if a.y <= b.y && a.y <= c.y { a.y } else if b.y <= c.y { b.y } else { c.y };
        let max_x = if a.x >= b.x && a.x >= c.x { a.x } else if b.x >= c.x { b.x } else { c.x };
        let max_y = if a.y >= b.y && a.y >= c.y { a.y } else if b.y >= c.y { b.y } else { c.y };
        Rect { min: ScreenPoint { x: min_x, y: min_y }, max: ScreenPoint { x: max_x, y: max_y } }
    }
}

pub open spec fn min3(a: int, b: int, c: int) -> int {
    if a <= b && a <= c { a } else if b <= c { b } else { c }
}

pub open spec fn max3(a: int, b: int, c: int) -> int {
    if a >= b && a >= c { a } else if b >= c { b } else { c }
}

/// Products of two sums and of two differences, multiplied out.
proof fn lemma_expand(a: int, b: int, c: int, d: int)
    ensures
        (a + b) * (c + d) == a * c + a * d + b * c + b * d,
        (a - b) * (c - d) == a * c - a * d - b * c + b * d,
{
    assert((a + b) * (c + d) == a * c + a * d + b * c + b * d) by (nonlinear_arith);
    assert((a - b) * (c - d) == a * c - a * d - b * c + b * d) by (nonlinear_arith);
}

/// Four factors regrouped into two pairs.
proof fn lemma_regroup(a: int, b: int, c: int, d: int)
    ensures
        (a * b) * (c * d) == (a * c) * (b * d),
        (a * b) * (c * d) == (a * d) * (b * c),
{
    assert((a * b) * (c * d) == (a * c) * (b * d)) by (nonlinear_arith);
    assert((a * b) * (c * d) == (a * d) * (b * c)) by (nonlinear_arith);
}

/// Lagrange's identity in the plane: Cramer's denominator is the square of
/// `AB × AC`, so it is never negative and is zero exactly for collinear points.
pub proof fn lemma_denominator_is_square(a: ScreenPoint, b: ScreenPoint, c: ScreenPoint)
    ensures
        cramer_denominator(a, b, c) == cross(edge(a, b), edge(a, c)) * cross(edge(a, b), edge(a, c)),
        cramer_denominator(a, b, c) >= 0,
{
    let (p, q) = edge(a, b);
    let (r, s) = edge(a, c);
    lemma_expand(p * p, q * q, r * r, s * s);
    lemma_expand(p * r, q * s, p * r, q * s);
    lemma_expand(p * s, q * r, p * s, q * r);
    lemma_regroup(p, p, r, r);
    lemma_regroup(q, q, s, s);
    lemma_regroup(p, p, s, s);
    lemma_regroup(q, q, r, r);
    lemma_regroup(p, r, q, s);
    lemma_regroup(p, s, q, r);
    lemma_regroup(p, q, r, s);
    let xx = p * s - q * r;
    assert(xx * xx >= 0) by (nonlinear_arith);
}

/// The weights solve `d·AP = v·AB + w·AC`: they place the point exactly.
pub proof fn lemma_weights_place_point(a: ScreenPoint, b: ScreenPoint, c: ScreenPoint, pt: ScreenPoint)
    ensures
        ({
            let d = cramer_denominator(a, b, c);
            let v = weight_b(a, b, c, pt);
            let w = weight_c(a, b, c, pt);
            &&& d * (pt.x - a.x) == v * (b.x - a.x) + w * (c.x - a.x)
            &&& d * (pt.y - a.y) == v * (b.y - a.y) + w * (c.y - a.y)
            &&& v == cross(edge(a, b), edge(a, c)) * cross(edge(a, pt), edge(a, c))
            &&& w == cross(edge(a, b), edge(a, c)) * cross(edge(a, b), edge(a, pt))
        }),
{
    let (p, q) = edge(a, b);
    let (r, s) = edge(a, c);
    let (x, y) = edge(a, pt);
    let xx = p * s - q * r;
    let v0 = x * s - y * r;
    let w0 = p * y - q * x;
    // weight_b == xx * v0
    lemma_expand(r * r, s * s, x * p, y * q);
    lemma_expand(p * r, q * s, x * r, y * s);
    lemma_expand(p * s, q * r, x * s, y * r);
    lemma_regroup(r, r, x, p);
    lemma_regroup(p, r, x, r);
    lemma_regroup(s, s, y, q);
    lemma_regroup(q, s, y, s);
    lemma_regroup(r, r, y, q);
    lemma_regroup(q, r, y, r);
    lemma_regroup(s, s, x, p);
    lemma_regroup(p, s, x, s);
    lemma_regroup(p, r, y, s);
    lemma_regroup(p, s, y, r);
    lemma_regroup(q, s, x, r);
    lemma_regroup(q, r, x, s);
    assert(weight_b(a, b, c, pt) == xx * v0);
    // weight_c == xx * w0
    lemma_expand(p * p, q * q, x * r, y * s);
    lemma_expand(p * r, q * s, x * p, y * q);
    lemma_expand(p * s, q * r, p * y, q * x);
    lemma_regroup(p, p, x, r);
    lemma_regroup(p, r, x, p);
    lemma_regroup(q, q, y, s);
    lemma_regroup(q, s, y, q);
    lemma_regroup(p, p, y, s);
    lemma_regroup(p, s, p, y);
    lemma_regroup(q, q, x, r);
    lemma_regroup(q, r, q, x);
    lemma_regroup(p, r, y, q);
    lemma_regroup(p, s, q, x);
    lemma_regroup(q, s, x, p);
    lemma_regroup(q, r, p, y);
    assert(weight_c(a, b, c, pt) == xx * w0);
    lemma_denominator_is_square(a, b, c);
    // xx · AP = v0 · AB + w0 · AC, componentwise
    assert(xx * x == v0 * p + w0 * r) by (nonlinear_arith)
        requires
            xx == p * s - q * r,
            v0 == x * s - y * r,
            w0 == p * y - q * x,
    ;
    assert(xx * y == v0 * q + w0 * s) by (nonlinear_arith)
        requires
            xx == p * s - q * r,
            v0 == x * s - y * r,
            w0 == p * y - q * x,
    ;
    assert(xx * xx * x == (xx * v0) * p + (xx * w0) * r) by (nonlinear_arith)
        requires
            xx * x == v0 * p + w0 * r,
    ;
    assert(xx * xx * y == (xx * v0) * q + (xx * w0) * s) by (nonlinear_arith)
        requires
            xx * y == v0 * q + w0 * s,
    ;
}

/// Each vertex of a non-degenerate triangle has weight one on itself and
/// zero on the others.
pub proof fn lemma_vertex_weights(a: ScreenPoint, b: ScreenPoint, c: ScreenPoint)
    requires
        cramer_denominator(a, b, c) != 0,
    ensures
        ({
            let d = cramer_denominator(a, b, c);
            &&& barycentric_of(a, b, c, a) == Some((d, 0int, 0int, d))
            &&& barycentric_of(a, b, c, b) == Some((0int, d, 0int, d))
            &&& barycentric_of(a, b, c, c) == Some((0int, 0int, d, d))
        }),
{
    lemma_denominator_is_square(a, b, c);
    let ab = edge(a, b);
    let ac = edge(a, c);
    assert(edge(a, a) == (0int, 0int));
    assert(dot((0int, 0int), ab) == 0);
    assert(dot((0int, 0int), ac) == 0);
    assert(edge(a, b) == ab);
    assert(dot(ac, ac) * dot(ab, ab) - dot(ab, ac) * dot(ab, ac) == cramer_denominator(a, b, c))
        by (nonlinear_arith)
        requires
            cramer_denominator(a, b, c) == dot(ab, ab) * dot(ac, ac) - dot(ab, ac) * dot(ab, ac),
    ;
    assert(dot(ab, ab) * dot(ab, ac) - dot(ab, ac) * dot(ab, ab) == 0) by (nonlinear_arith);
    assert(dot(ac, ab) == dot(ab, ac));
    assert(dot(ac, ac) * dot(ac, ab) - dot(ab, ac) * dot(ac, ac) == 0) by (nonlinear_arith)
        requires dot(ac, ab) == dot(ab, ac);
}

/// The centroid of a non-degenerate triangle has the three weights equal:
/// each a third.
pub proof fn lemma_centroid_weights(a: ScreenPoint, b: ScreenPoint, c: ScreenPoint, g: ScreenPoint)
    requires
        cramer_denominator(a, b, c) != 0,
        3 * g.x == a.x + b.x + c.x,
        3 * g.y == a.y + b.y + c.y,
    ensures
        match barycentric_of(a, b, c, g) {
            Some((u, v, w, d)) => 3 * u == d && 3 * v == d && 3 * w == d,
            None => false,
        },
{
    lemma_denominator_is_square(a, b, c);
    lemma_weights_place_point(a, b, c, g);
    let (p, q) = edge(a, b);
    let (r, s) = edge(a, c);
    let (x, y) = edge(a, g);
    let xx = p * s - q * r;
    assert(3 * x == p + r && 3 * y == q + s);
    assert(3 * (x * s - y * r) == xx) by (nonlinear_arith)
        requires
            3 * x == p + r,
            3 * y == q + s,
            xx == p * s - q * r,
    ;
    assert(3 * (p * y - q * x) == xx) by (nonlinear_arith)
        requires
            3 * x == p + r,
            3 * y == q + s,
            xx == p * s - q * r,
    ;
    assert(3 * (xx * (x * s - y * r)) == xx * xx) by (nonlinear_arith)
        requires
            3 * (x * s - y * r) == xx,
    ;
    assert(3 * (xx * (p * y - q * x)) == xx * xx) by (nonlinear_arith)
        requires
            3 * (p * y - q * x) == xx,
    ;
}

/// No weights for a degenerate (collinear) triangle, whatever the point;
/// none for a point outside the triangle's bounding box.
pub proof fn lemma_no_weights(a: ScreenPoint, b: ScreenPoint, c: ScreenPoint, pt: ScreenPoint)
    requires
        cross(edge(a, b), edge(a, c)) == 0 || pt.x < min3(a.x as int, b.x as int, c.x as int)
            || pt.x > max3(a.x as int, b.x as int, c.x as int) || pt.y < min3(
            a.y as int,
            b.y as int,
            c.y as int,
        ) || pt.y > max3(a.y as int, b.y as int, c.y as int),
    ensures
        barycentric_of(a, b, c, pt) is None,
{
    lemma_denominator_is_square(a, b, c);
    lemma_weights_place_point(a, b, c, pt);
    let d = cramer_denominator(a, b, c);
    let v = weight_b(a, b, c, pt);
    let w = weight_c(a, b, c, pt);
    let u = d - v - w;
    if d != 0 && u >= 0 && v >= 0 && w >= 0 {
        assert(d * pt.x == u * a.x + v * b.x + w * c.x) by (nonlinear_arith)
            requires
                d * (pt.x - a.x) == v * (b.x - a.x) + w * (c.x - a.x),
                u == d - v - w,
        ;
        assert(d * pt.y == u * a.y + v * b.y + w * c.y) by (nonlinear_arith)
            requires
                d * (pt.y - a.y) == v * (b.y - a.y) + w * (c.y - a.y),
                u == d - v - w,
        ;
        lemma_convex_within(u, v, w, d, a.x as int, b.x as int, c.x as int, pt.x as int);
        lemma_convex_within(u, v, w, d, a.y as int, b.y as int, c.y as int, pt.y as int);
    }
}

/// A convex combination lies between the least and the greatest of its terms.
proof fn lemma_convex_within(u: int, v: int, w: int, d: int, ka: int, kb: int, kc: int, k: int)
    requires
        u >= 0,
        v >= 0,
        w >= 0,
        d > 0,
        u + v + w == d,
        d * k == u * ka + v * kb + w * kc,
    ensures
        min3(ka, kb, kc) <= k <= max3(ka, kb, kc),
{
    let lo = min3(ka, kb, kc);
    let hi = max3(ka, kb, kc);
    assert(d * lo <= d * k) by (nonlinear_arith)
        requires
            u >= 0, v >= 0, w >= 0,
            lo <= ka, lo <= kb, lo <= kc,
            u + v + w == d,
            d * k == u * ka + v * kb + w * kc,
    ;
    assert(d * k <= d * hi) by (nonlinear_arith)
        requires
            u >= 0, v >= 0, w >= 0,
            hi >= ka, hi >= kb, hi >= kc,
            u + v + w == d,
            d * k == u * ka + v * kb + w * kc,
    ;
    assert(lo <= k) by (nonlinear_arith)
        requires d > 0, d * lo <= d * k;
    assert(k <= hi) by (nonlinear_arith)
        requires d > 0, d * k <= d * hi;
}

} // verus!
