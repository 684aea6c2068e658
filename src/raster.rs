//! The mathematics of line rasterization: region codes, segment clipping
//! against the viewport rectangle, and Bresenham's pixel sequence.
use vstd::prelude::*;
use vstd::arithmetic::div_mod::{lemma_fundamental_div_mod, lemma_mod_pos_bound};

verus! {

/// No boundary violated.
pub const INSIDE: u8 = 0;
/// `x < 0`.
pub const LEFT: u8 = 1;
/// `x > width`.
pub const RIGHT: u8 = 2;
/// `y < 0`.
pub const BOTTOM: u8 = 4;
/// `y > height`.
pub const TOP: u8 = 8;

/// The distance between two integers.
pub open spec fn dist(a: int, b: int) -> int {
    if a >= b { a - b } else { b - a }
}

/// The Cohen–Sutherland region code of `(x, y)` against `[0, w] × [0, h]`.
/// `BOTTOM` stands for `y < 0` and `TOP` for `y > h`.
pub open spec fn outcode(w: int, h: int, x: int, y: int) -> u8 {
    (if x < 0 { LEFT } else if x > w { RIGHT } else { INSIDE }) | (if y < 0 {
        BOTTOM
    } else if y > h {
        TOP
    } else {
        INSIDE
    })
}

/// The point lies in the closed viewport rectangle `[0, w] × [0, h]`.
pub open spec fn inside(w: int, h: int, p: (int, int)) -> bool {
    0 <= p.0 <= w && 0 <= p.1 <= h
}

/// Both points violate one and the same boundary.
pub open spec fn shares_side(w: int, h: int, a: (int, int), b: (int, int)) -> bool {
    (a.0 < 0 && b.0 < 0) || (a.0 > w && b.0 > w) || (a.1 < 0 && b.1 < 0) || (a.1 > h && b.1 > h)
}

/// How many of the four boundaries at least one of the points violates.
pub open spec fn sides(w: int, h: int, a: (int, int), b: (int, int)) -> nat {
    (if a.0 < 0 || b.0 < 0 { 1nat } else { 0nat }) + (if a.0 > w || b.0 > w { 1nat } else { 0nat })
        + (if a.1 < 0 || b.1 < 0 { 1nat } else { 0nat }) + (if a.1 > h || b.1 > h {
        1nat
    } else {
        0nat
    })
}

/// `d · num / den` rounded to the nearest integer, halves away from zero.
pub open spec fn round_scaled(d: int, num: int, den: int) -> int {
    let n = if den < 0 { -num } else { num };
    let m = if den < 0 { -den } else { den };
    let q = (2 * dist(d, 0) * n + m) / (2 * m);
    if d < 0 { -q } else { q }
}

/// The point where the segment `a`–`b` meets the boundary that its outside
/// endpoint violates, tried in the order top, bottom, right, left.
pub open spec fn crossing(w: int, h: int, a: (int, int), b: (int, int)) -> (int, int) {
    let o = if !inside(w, h, a) { a } else { b };
    if o.1 > h {
        (a.0 + round_scaled(b.0 - a.0, h - a.1, b.1 - a.1), h)
    } else if o.1 < 0 {
        (a.0 + round_scaled(b.0 - a.0, 0 - a.1, b.1 - a.1), 0)
    } else if o.0 > w {
        (w, a.1 + round_scaled(b.1 - a.1, w - a.0, b.0 - a.0))
    } else {
        (0, a.1 + round_scaled(b.1 - a.1, 0 - a.0, b.0 - a.0))
    }
}

/// One clipping step: the outside endpoint (the first, if both are outside)
/// moves to the crossing.
pub open spec fn clip_step(w: int, h: int, a: (int, int), b: (int, int)) -> ((int, int), (int, int)) {
    if !inside(w, h, a) {
        (crossing(w, h, a, b), b)
    } else {
        (a, crossing(w, h, a, b))
    }
}

/// Cohen–Sutherland clipping of the segment `a`–`b` to `[0, w] × [0, h]`:
/// the clipped endpoints, or `None` when the segment is rejected. Each step
/// lowers `sides` (see `lemma_clip_step_progress`); the test on it only lets
/// the definition terminate by construction.
pub open spec fn clip_segment(w: int, h: int, a: (int, int), b: (int, int)) -> Option<
    ((int, int), (int, int)),
>
    decreases sides(w, h, a, b),
{
    if inside(w, h, a) && inside(w, h, b) {
        Some((a, b))
    } else if shares_side(w, h, a, b) {
        None
    } else {
        let (na, nb) = clip_step(w, h, a, b);
        if sides(w, h, na, nb) < sides(w, h, a, b) {
            clip_segment(w, h, na, nb)
        } else {
            None
        }
    }
}

/// The number of clipping steps that `clip_segment` takes.
pub open spec fn clip_steps(w: int, h: int, a: (int, int), b: (int, int)) -> nat
    decreases sides(w, h, a, b),
{
    if inside(w, h, a) && inside(w, h, b) {
        0
    } else if shares_side(w, h, a, b) {
        0
    } else {
        let (na, nb) = clip_step(w, h, a, b);
        if sides(w, h, na, nb) < sides(w, h, a, b) {
            1 + clip_steps(w, h, na, nb)
        } else {
            0
        }
    }
}

/// The pixels that Bresenham's error-accumulator walk visits from `(x, y)`
/// to `(x1, y1)`, given the step directions `sx`, `sy`, the spans
/// `dx = |x1 - x0|`, `dy = -|y1 - y0|` and the accumulated error `err`.
/// Every step comes closer to the end (see `lemma_bresenham_step`); the
/// test on it only lets the definition terminate by construction.
pub open spec fn bresenham_from(
    x: int,
    y: int,
    x1: int,
    y1: int,
    dx: int,
    dy: int,
    sx: int,
    sy: int,
    err: int,
) -> Seq<(int, int)>
    decreases dist(x1, x) + dist(y1, y),
{
    if x == x1 && y == y1 {
        seq![(x, y)]
    } else {
        let e2 = 2 * err;
        let nx = if e2 >= dy { x + sx } else { x };
        let err1 = if e2 >= dy { err + dy } else { err };
        let ny = if e2 <= dx { y + sy } else { y };
        let err2 = if e2 <= dx { err1 + dx } else { err1 };
        if dist(x1, nx) + dist(y1, ny) < dist(x1, x) + dist(y1, y) {
            seq![(x, y)] + bresenham_from(nx, ny, x1, y1, dx, dy, sx, sy, err2)
        } else {
            seq![(x, y)]
        }
    }
}

/// The pixels of Bresenham's line from `(x0, y0)` to `(x1, y1)`, both
/// endpoints included.
pub open spec fn bresenham(x0: int, y0: int, x1: int, y1: int) -> Seq<(int, int)> {
    let dx = dist(x1, x0);
    let dy = -dist(y1, y0);
    let sx = if x0 < x1 { 1int } else { -1int };
    let sy = if y0 < y1 { 1int } else { -1int };
    bresenham_from(x0, y0, x1, y1, dx, dy, sx, sy, dx + dy)
}

/// What the region code says, bit by bit.
pub proof fn lemma_outcode_bits(w: int, h: int, x: int, y: int)
    requires
        0 <= w,
        0 <= h,
    ensures
        ({
            let o = outcode(w, h, x, y);
            &&& (o & LEFT != 0) == (x < 0)
            &&& (o & RIGHT != 0) == (x > w)
            &&& (o & BOTTOM != 0) == (y < 0)
            &&& (o & TOP != 0) == (y > h)
            &&& o < 16
            &&& (o == INSIDE) == inside(w, h, (x, y))
        }),
{
    let xc: u8 = if x < 0 { LEFT } else if x > w { RIGHT } else { INSIDE };
    let yc: u8 = if y < 0 { BOTTOM } else if y > h { TOP } else { INSIDE };
    let o = outcode(w, h, x, y);
    assert(o == xc | yc);
    assert((xc == 0 || xc == 1 || xc == 2) && (yc == 0 || yc == 4 || yc == 8) ==> {
        &&& ((xc | yc) & 1 != 0) == (xc == 1)
        &&& ((xc | yc) & 2 != 0) == (xc == 2)
        &&& ((xc | yc) & 4 != 0) == (yc == 4)
        &&& ((xc | yc) & 8 != 0) == (yc == 8)
        &&& (xc | yc) < 16
        &&& ((xc | yc) == 0) == (xc == 0 && yc == 0)
    }) by (bit_vector);
    assert(xc == 0 || xc == 1 || xc == 2);
    assert(yc == 0 || yc == 4 || yc == 8);
    assert((xc == 1) == (x < 0));
    assert((xc == 2) == (x > w));
    assert((yc == 4) == (y < 0));
    assert((yc == 8) == (y > h));
}

/// Two region codes together: both clear, or sharing a bit.
pub proof fn lemma_outcode_pair(o1: u8, o2: u8)
    requires
        o1 < 16,
        o2 < 16,
    ensures
        ((o1 | o2) == 0) == (o1 == 0 && o2 == 0),
        ((o1 & o2) != 0) == ((o1 & 1 != 0 && o2 & 1 != 0) || (o1 & 2 != 0 && o2 & 2 != 0) || (o1
            & 4 != 0 && o2 & 4 != 0) || (o1 & 8 != 0 && o2 & 8 != 0)),
{
    assert(o1 < 16 && o2 < 16 ==> ((o1 | o2) == 0) == (o1 == 0 && o2 == 0)) by (bit_vector);
    assert(o1 < 16 && o2 < 16 ==> ((o1 & o2) != 0) == ((o1 & 1 != 0 && o2 & 1 != 0) || (o1 & 2
        != 0 && o2 & 2 != 0) || (o1 & 4 != 0 && o2 & 4 != 0) || (o1 & 8 != 0 && o2 & 8 != 0)))
        by (bit_vector);
}

/// Rounding `d · num / den` with `num / den` in `[0, 1]` lands between `0`
/// and `d`, within half a unit of the exact value.
pub proof fn lemma_round_scaled(d: int, num: int, den: int)
    requires
        (0 <= num <= den && den > 0) || (den <= num <= 0 && den < 0),
    ensures
        0 <= d ==> 0 <= round_scaled(d, num, den) <= d,
        d < 0 ==> d <= round_scaled(d, num, den) <= 0,
        -dist(den, 0) <= 2 * (den * round_scaled(d, num, den) - d * num) <= dist(den, 0),
{
    let n = if den < 0 { -num } else { num };
    let m = if den < 0 { -den } else { den };
    let ad = dist(d, 0);
    let nn = 2 * ad * n + m;
    let q = nn / (2 * m);
    let r = nn % (2 * m);
    assert(0 <= n <= m && m > 0);
    assert(0 <= ad * n <= ad * m) by (nonlinear_arith)
        requires
            0 <= n <= m,
            ad >= 0,
    ;
    assert(2 * ad * n == 2 * (ad * n)) by (nonlinear_arith);
    assert(2 * ad * m == 2 * (ad * m)) by (nonlinear_arith);
    lemma_fundamental_div_mod(nn, 2 * m);
    lemma_mod_pos_bound(nn, 2 * m);
    assert(nn == 2 * m * q + r && 0 <= r < 2 * m);
    assert(0 <= q <= ad) by (nonlinear_arith)
        requires
            nn == 2 * m * q + r,
            0 <= r < 2 * m,
            0 <= nn <= 2 * ad * m + m,
            m > 0,
    ;
    assert(-m <= 2 * (m * q - ad * n) <= m) by (nonlinear_arith)
        requires
            nn == 2 * m * q + r,
            0 <= r < 2 * m,
            nn == 2 * ad * n + m,
    ;
    let rs = round_scaled(d, num, den);
    assert(rs == if d < 0 { -q } else { q });
    if d < 0 {
        if den < 0 {
            assert(den * rs - d * num == m * q - ad * n) by (nonlinear_arith)
                requires rs == -q, ad == -d, n == -num, m == -den;
        } else {
            assert(den * rs - d * num == -(m * q - ad * n)) by (nonlinear_arith)
                requires rs == -q, ad == -d, n == num, m == den;
        }
    } else {
        if den < 0 {
            assert(den * rs - d * num == -(m * q - ad * n)) by (nonlinear_arith)
                requires rs == q, ad == d, n == -num, m == -den;
        } else {
            assert(den * rs - d * num == m * q - ad * n) by (nonlinear_arith)
                requires rs == q, ad == d, n == num, m == den;
        }
    }
}

/// Every coordinate that clipping handles lies in this range: an `i32` or a
/// viewport bound.
pub open spec fn in_span(p: (int, int)) -> bool {
    -2147483648 <= p.0 <= 4294967295 && -2147483648 <= p.1 <= 4294967295
}

/// A clipping step on a segment that is neither accepted nor rejected moves
/// an endpoint onto a violated boundary: the number of boundaries violated
/// by either endpoint drops, and the new point stays between the old
/// coordinates or on a bound.
pub proof fn lemma_clip_step_progress(w: int, h: int, a: (int, int), b: (int, int))
    requires
        0 <= w <= 4294967295,
        0 <= h <= 4294967295,
        !(inside(w, h, a) && inside(w, h, b)),
        !shares_side(w, h, a, b),
        in_span(a),
        in_span(b),
    ensures
        sides(w, h, clip_step(w, h, a, b).0, clip_step(w, h, a, b).1) < sides(w, h, a, b),
        in_span(clip_step(w, h, a, b).0),
        in_span(clip_step(w, h, a, b).1),
{
    let o = if !inside(w, h, a) { a } else { b };
    if o.1 > h {
        lemma_round_scaled(b.0 - a.0, h - a.1, b.1 - a.1);
    } else if o.1 < 0 {
        lemma_round_scaled(b.0 - a.0, 0 - a.1, b.1 - a.1);
    } else if o.0 > w {
        lemma_round_scaled(b.1 - a.1, w - a.0, b.0 - a.0);
    } else {
        lemma_round_scaled(b.1 - a.1, 0 - a.0, b.0 - a.0);
    }
}

/// The clipping walk from `a`–`b` ends by accepting or rejecting the
/// segment, every step lowering `sides`, rather than by the test that makes
/// `clip_segment` terminate by construction.
pub open spec fn clip_decided(w: int, h: int, a: (int, int), b: (int, int)) -> bool
    decreases sides(w, h, a, b),
{
    if inside(w, h, a) && inside(w, h, b) {
        true
    } else if shares_side(w, h, a, b) {
        true
    } else {
        let (na, nb) = clip_step(w, h, a, b);
        sides(w, h, na, nb) < sides(w, h, a, b) && clip_decided(w, h, na, nb)
    }
}

/// Clipping always ends by accepting or rejecting the segment, after at
/// most four steps: no more than the number of boundaries that the
/// endpoints violate.
pub proof fn lemma_clip_terminates(w: int, h: int, a: (int, int), b: (int, int))
    requires
        0 <= w <= 4294967295,
        0 <= h <= 4294967295,
        in_span(a),
        in_span(b),
    ensures
        clip_decided(w, h, a, b),
        clip_steps(w, h, a, b) <= sides(w, h, a, b) <= 4,
    decreases sides(w, h, a, b),
{
    if !(inside(w, h, a) && inside(w, h, b)) && !shares_side(w, h, a, b) {
        lemma_clip_step_progress(w, h, a, b);
        let (na, nb) = clip_step(w, h, a, b);
        lemma_clip_terminates(w, h, na, nb);
    }
}

/// One walk step of Bresenham's algorithm, with `a`, `b` the remaining
/// distances to the end and `ddy = |dy|`: the error term keeps its closed
/// form, a coordinate steps only while it has distance left, and at least
/// one of them steps.
pub proof fn lemma_bresenham_step(dx: int, ddy: int, a: int, b: int, err: int)
    requires
        0 <= a <= dx,
        0 <= b <= ddy,
        err == dx - ddy + a * ddy - b * dx,
        a > 0 || b > 0,
    ensures
        2 * err >= -ddy ==> a > 0,
        2 * err <= dx ==> b > 0,
        2 * err >= -ddy || 2 * err <= dx,
        (a - 1) * ddy == a * ddy - ddy,
        (b - 1) * dx == b * dx - dx,
{
    assert((a - 1) * ddy == a * ddy - ddy) by (nonlinear_arith);
    assert((b - 1) * dx == b * dx - dx) by (nonlinear_arith);
    if a == 0 {
        assert(b * dx >= dx) by (nonlinear_arith)
            requires b >= 1, dx >= 0;
        assert(a * ddy == 0);
    }
    if b == 0 {
        assert(a * ddy >= ddy) by (nonlinear_arith)
            requires a >= 1, ddy >= 0;
        assert(b * dx == 0);
    }
}

/// Bounds on the error term of Bresenham's walk, for overflow.
pub proof fn lemma_bresenham_error_bound(dx: int, ddy: int, a: int, b: int)
    requires
        0 <= a <= dx <= 4294967296,
        0 <= b <= ddy <= 4294967296,
    ensures
        0 <= a * ddy <= 18446744073709551616,
        0 <= b * dx <= 18446744073709551616,
{
    assert(0 <= a * ddy <= dx * ddy) by (nonlinear_arith)
        requires 0 <= a <= dx, 0 <= ddy;
    assert(0 <= b * dx <= ddy * dx) by (nonlinear_arith)
        requires 0 <= b <= ddy, 0 <= dx;
    assert(dx * ddy <= 4294967296 * 4294967296) by (nonlinear_arith)
        requires 0 <= dx <= 4294967296, 0 <= ddy <= 4294967296;
}

/// The endpoints that clipping accepts lie on the viewport rectangle.
pub proof fn lemma_clip_segment_inside(w: int, h: int, a: (int, int), b: (int, int))
    ensures
        match clip_segment(w, h, a, b) {
            Some((p, q)) => inside(w, h, p) && inside(w, h, q),
            None => true,
        },
    decreases sides(w, h, a, b),
{
    if !(inside(w, h, a) && inside(w, h, b)) && !shares_side(w, h, a, b) {
        let (na, nb) = clip_step(w, h, a, b);
        if sides(w, h, na, nb) < sides(w, h, a, b) {
            lemma_clip_segment_inside(w, h, na, nb);
        }
    }
}

/// A segment from a point beyond exactly one boundary to a point on the
/// viewport rectangle is clipped in one step: the outside endpoint moves onto
/// that boundary, and its other coordinate is the exact interpolation along
/// the segment, rounded to the nearest integer (within half a unit).
pub proof fn lemma_single_crossing(w: int, h: int, a: (int, int), b: (int, int))
    requires
        0 <= w <= 4294967295,
        0 <= h <= 4294967295,
        in_span(a),
        in_span(b),
        inside(w, h, b),
        (a.0 < 0 && 0 <= a.1 <= h) || (a.0 > w && 0 <= a.1 <= h) || (a.1 < 0 && 0 <= a.0 <= w) || (
        a.1 > h && 0 <= a.0 <= w),
    ensures
        ({
            let c = crossing(w, h, a, b);
            &&& clip_segment(w, h, a, b) == Some((c, b))
            &&& a.0 < 0 ==> c.0 == 0 && -(b.0 - a.0) <= 2 * ((b.0 - a.0) * (c.1 - a.1) - (b.1
                - a.1) * (0 - a.0)) <= b.0 - a.0
            &&& a.0 > w ==> c.0 == w && -(a.0 - b.0) <= 2 * ((b.0 - a.0) * (c.1 - a.1) - (b.1
                - a.1) * (w - a.0)) <= a.0 - b.0
            &&& a.1 < 0 ==> c.1 == 0 && -(b.1 - a.1) <= 2 * ((b.1 - a.1) * (c.0 - a.0) - (b.0
                - a.0) * (0 - a.1)) <= b.1 - a.1
            &&& a.1 > h ==> c.1 == h && -(a.1 - b.1) <= 2 * ((b.1 - a.1) * (c.0 - a.0) - (b.0
                - a.0) * (h - a.1)) <= a.1 - b.1
        }),
{
    lemma_clip_step_progress(w, h, a, b);
    let c = crossing(w, h, a, b);
    if a.1 > h {
        let r = round_scaled(b.0 - a.0, h - a.1, b.1 - a.1);
        lemma_round_scaled(b.0 - a.0, h - a.1, b.1 - a.1);
        assert(c.0 - a.0 == r);
    } else if a.1 < 0 {
        let r = round_scaled(b.0 - a.0, 0 - a.1, b.1 - a.1);
        lemma_round_scaled(b.0 - a.0, 0 - a.1, b.1 - a.1);
        assert(c.0 - a.0 == r);
    } else if a.0 > w {
        let r = round_scaled(b.1 - a.1, w - a.0, b.0 - a.0);
        lemma_round_scaled(b.1 - a.1, w - a.0, b.0 - a.0);
        assert(c.1 - a.1 == r);
    } else {
        let r = round_scaled(b.1 - a.1, 0 - a.0, b.0 - a.0);
        lemma_round_scaled(b.1 - a.1, 0 - a.0, b.0 - a.0);
        assert(c.1 - a.1 == r);
    }
    assert(inside(w, h, c));
    assert(clip_step(w, h, a, b) == (c, b));
    assert(clip_segment(w, h, c, b) == Some((c, b)));
}

} // verus!
