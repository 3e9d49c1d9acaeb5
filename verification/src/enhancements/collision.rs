//! Where a segment first meets the level geometry.
//!
//! All of it is exact arithmetic on the integer grid: a place along a
//! segment is a fraction of two whole numbers, and two places are compared
//! by cross-multiplying.

use vstd::prelude::*;
use crate::enhancements::geometry::Aabb;
use crate::enhancements::geometry::Point;
use crate::enhancements::geometry::Triangle;
use crate::enhancements::geometry::bounds_of;
use crate::enhancements::geometry::lemma_bounds_hold_triangle;
use crate::enhancements::geometry::lemma_range_high_attained;
use crate::enhancements::geometry::lemma_range_low_attained;
use crate::enhancements::grid::GRID_LIMIT;
use crate::enhancements::grid::Vector;
use crate::enhancements::grid::lemma_cross_is_across;
use crate::enhancements::grid::lemma_dot_of_sum;
use crate::enhancements::grid::lemma_mul_bounds;
use crate::enhancements::grid::lemma_part_of;
use crate::enhancements::grid::lemma_triple_small;
use crate::enhancements::grid::lemma_triple_swap;
use crate::enhancements::grid::lemma_triple_turn;
use crate::enhancements::grid::span_limit;
use crate::enhancements::grid::toward_zero;
use crate::enhancements::grid::volume_limit;
use crate::enhancements::grid::wide_cross;
use crate::enhancements::grid::wide_diff;
use crate::enhancements::grid::wide_dot;

verus! {

/// A place along a segment: `num / den` of the way from its start to its
/// end.
#[derive(Clone, Copy, PartialEq, Eq, Structural, Debug)]
pub struct Fraction {
    pub num: i64,
    pub den: i64,
}

impl Fraction {
    /// The fraction has a positive denominator and is neither negative nor
    /// greater than one, and both parts are small enough to cross-multiply.
    pub open spec fn is_proper(self) -> bool {
        &&& 0 < self.den <= volume_limit()
        &&& 0 <= self.num <= self.den
    }

    /// This place comes strictly before `other`.
    pub open spec fn before(self, other: Fraction) -> bool {
        self.num * other.den < other.num * self.den
    }

    /// The whole segment.
    pub open spec fn one() -> Fraction {
        Fraction { num: 1, den: 1 }
    }

    /// Whether this place comes strictly before `other`.
    pub fn is_before(&self, other: &Fraction) -> (b: bool)
        requires
            self.is_proper(),
            other.is_proper(),
        ensures
            b == self.before(*other),
    {
        proof {
            lemma_mul_bounds(
                self.num as int,
                other.den as int,
                volume_limit(),
                volume_limit(),
            );
            lemma_mul_bounds(
                other.num as int,
                self.den as int,
                volume_limit(),
                volume_limit(),
            );
        }
        (self.num as i128) * (other.den as i128) < (other.num as i128) * (self.den as i128)
    }
}

/// Of three places, one that comes before a second comes before every
/// third that the second does not come after.
pub proof fn lemma_before_chain(a: Fraction, b: Fraction, c: Fraction)
    requires
        a.den > 0,
        b.den > 0,
        c.den > 0,
        a.before(b),
        !c.before(b),
    ensures
        a.before(c),
{
    let (an, ad) = (a.num as int, a.den as int);
    let (bn, bd) = (b.num as int, b.den as int);
    let (cn, cd) = (c.num as int, c.den as int);
    assert((an * bd) * cd < (bn * ad) * cd) by (nonlinear_arith)
        requires
            an * bd < bn * ad,
            cd > 0,
    ;
    assert((cn * bd) * ad >= (bn * cd) * ad) by (nonlinear_arith)
        requires
            cn * bd >= bn * cd,
            ad > 0,
    ;
    assert((bn * ad) * cd == (bn * cd) * ad) by (nonlinear_arith);
    assert((an * bd) * cd == (an * cd) * bd) by (nonlinear_arith);
    assert((cn * bd) * ad == (cn * ad) * bd) by (nonlinear_arith);
    assert(an * cd < cn * ad) by (nonlinear_arith)
        requires
            (an * cd) * bd < (cn * ad) * bd,
            bd > 0,
    ;
}

/// What the intersection test computes for a triangle and a segment.
///
/// With `d` the segment, `e1` and `e2` the two edges from the first vertex
/// and `s` the start seen from the first vertex, this is the solution of
/// `s + t d = u e1 + v e2` by Cramer's rule, each unknown as a numerator
/// over the common denominator `den`.
pub struct Crossing {
    pub den: int,
    pub u: int,
    pub v: int,
    pub t: int,
}

/// What the intersection test computes for the triangle and the segment
/// from `start` to `end`.
pub open spec fn crossing(tri: Triangle, start: Point, end: Point) -> Crossing {
    let d = end.at().minus(start.at());
    let e1 = tri.v1.at().minus(tri.v0.at());
    let e2 = tri.v2.at().minus(tri.v0.at());
    let s = start.at().minus(tri.v0.at());
    let h = d.cross(e2);
    let q = s.cross(e1);
    Crossing { den: e1.dot(h), u: s.dot(h), v: d.dot(q), t: e2.dot(q) }
}

/// The place `t / den` of the segment is the point of the triangle's plane
/// with the weights `u / den` and `v / den` on the two edges.
pub open spec fn lies_in_plane(tri: Triangle, start: Point, end: Point, c: Crossing) -> bool {
    let d = end.at().minus(start.at());
    let e1 = tri.v1.at().minus(tri.v0.at());
    let e2 = tri.v2.at().minus(tri.v0.at());
    let s = start.at().minus(tri.v0.at());
    &&& c.den * s.x + c.t * d.x == c.u * e1.x + c.v * e2.x
    &&& c.den * s.y + c.t * d.y == c.u * e1.y + c.v * e2.y
    &&& c.den * s.z + c.t * d.z == c.u * e1.z + c.v * e2.z
}

/// The segment from `start` to `end` meets the front of the triangle
/// strictly between its two ends.
///
/// The front is the side that the face normal points to: a segment that
/// runs along the normal or across it comes from behind or is parallel,
/// and does not meet the triangle. The meeting point is inside the
/// triangle or on its edge.
pub open spec fn meets(tri: Triangle, start: Point, end: Point) -> bool {
    let c = crossing(tri, start, end);
    &&& c.den > 0
    &&& 0 <= c.u <= c.den
    &&& 0 <= c.v
    &&& c.u + c.v <= c.den
    &&& 0 < c.t < c.den
}

/// Where along the segment it meets the triangle, if it does.
pub open spec fn hit_place(tri: Triangle, start: Point, end: Point) -> Option<Fraction> {
    if meets(tri, start, end) {
        let c = crossing(tri, start, end);
        Some(Fraction { num: c.t as i64, den: c.den as i64 })
    } else {
        None
    }
}

/// Where along the segment from `start` to `end` it meets the triangle, if
/// it does.
pub fn segment_hits(tri: &Triangle, start: &Point, end: &Point) -> (place: Option<Fraction>)
    requires
        tri.in_grid(),
        start.in_grid(),
        end.in_grid(),
    ensures
        place == hit_place(*tri, *start, *end),
        place is Some ==> place->0.is_proper() && place->0.num > 0 && place->0.num < place->0.den,
{
    let d = wide_diff(end, start);
    let e1 = wide_diff(&tri.v1, &tri.v0);
    let e2 = wide_diff(&tri.v2, &tri.v0);
    let s = wide_diff(start, &tri.v0);
    let h = wide_cross(&d, &e2);
    let den = wide_dot(&e1, &h);
    if den <= 0 {
        return None;
    }
    let u = wide_dot(&s, &h);
    if u < 0 || u > den {
        return None;
    }
    let q = wide_cross(&s, &e1);
    let v = wide_dot(&d, &q);
    if v < 0 || v > den - u {
        return None;
    }
    let t = wide_dot(&e2, &q);
    if t <= 0 || t >= den {
        return None;
    }
    Some(Fraction { num: t, den })
}

/// One axis of Cramer's rule for `s + t d = u a + v b`: with the common
/// denominator and the three numerators written out, the equation holds
/// in the first coordinate. Each step multiplies out one product or puts
/// the factors of one term in order.
#[verifier::rlimit(40)]
proof fn lemma_cramer_axis(
    sx: int,
    sy: int,
    sz: int,
    dx: int,
    dy: int,
    dz: int,
    ax: int,
    ay: int,
    az: int,
    bx: int,
    by: int,
    bz: int,
)
    ensures
        (ax * (dy * bz - dz * by) + ay * (dz * bx - dx * bz) + az * (dx * by - dy * bx)) * sx + (bx
            * (sy * az - sz * ay) + by * (sz * ax - sx * az) + bz * (sx * ay - sy * ax)) * dx == (
        sx * (dy * bz - dz * by) + sy * (dz * bx - dx * bz) + sz * (dx * by - dy * bx)) * ax + (dx
            * (sy * az - sz * ay) + dy * (sz * ax - sx * az) + dz * (sx * ay - sy * ax)) * bx,
{
    // the denominator times the start
    assert((ax * (dy * bz - dz * by)) * sx
        == (ax * (dy * bz)) * sx - (ax * (dz * by)) * sx) by (nonlinear_arith);
    assert((ax * (dy * bz)) * sx == ax * (bz * (dy * sx))) by (nonlinear_arith);
    assert((ax * (dz * by)) * sx == ax * (by * (dz * sx))) by (nonlinear_arith);
    assert((ay * (dz * bx - dx * bz)) * sx
        == (ay * (dz * bx)) * sx - (ay * (dx * bz)) * sx) by (nonlinear_arith);
    assert((ay * (dz * bx)) * sx == ay * (bx * (dz * sx))) by (nonlinear_arith);
    assert((ay * (dx * bz)) * sx == ay * (bz * (dx * sx))) by (nonlinear_arith);
    assert((az * (dx * by - dy * bx)) * sx
        == (az * (dx * by)) * sx - (az * (dy * bx)) * sx) by (nonlinear_arith);
    assert((az * (dx * by)) * sx == az * (by * (dx * sx))) by (nonlinear_arith);
    assert((az * (dy * bx)) * sx == az * (bx * (dy * sx))) by (nonlinear_arith);
    assert((ax * (dy * bz - dz * by) + ay * (dz * bx - dx * bz) + az * (dx * by - dy * bx)) * sx
        == (ax * (dy * bz - dz * by)) * sx
            + (ay * (dz * bx - dx * bz)) * sx
            + (az * (dx * by - dy * bx)) * sx) by (nonlinear_arith);
    // the place times the segment
    assert((bx * (sy * az - sz * ay)) * dx
        == (bx * (sy * az)) * dx - (bx * (sz * ay)) * dx) by (nonlinear_arith);
    assert((bx * (sy * az)) * dx == az * (bx * (dx * sy))) by (nonlinear_arith);
    assert((bx * (sz * ay)) * dx == ay * (bx * (dx * sz))) by (nonlinear_arith);
    assert((by * (sz * ax - sx * az)) * dx
        == (by * (sz * ax)) * dx - (by * (sx * az)) * dx) by (nonlinear_arith);
    assert((by * (sz * ax)) * dx == ax * (by * (dx * sz))) by (nonlinear_arith);
    assert((by * (sx * az)) * dx == az * (by * (dx * sx))) by (nonlinear_arith);
    assert((bz * (sx * ay - sy * ax)) * dx
        == (bz * (sx * ay)) * dx - (bz * (sy * ax)) * dx) by (nonlinear_arith);
    assert((bz * (sx * ay)) * dx == ay * (bz * (dx * sx))) by (nonlinear_arith);
    assert((bz * (sy * ax)) * dx == ax * (bz * (dx * sy))) by (nonlinear_arith);
    assert((bx * (sy * az - sz * ay) + by * (sz * ax - sx * az) + bz * (sx * ay - sy * ax)) * dx
        == (bx * (sy * az - sz * ay)) * dx
            + (by * (sz * ax - sx * az)) * dx
            + (bz * (sx * ay - sy * ax)) * dx) by (nonlinear_arith);
    // the first weight times the first edge
    assert((sx * (dy * bz - dz * by)) * ax
        == (sx * (dy * bz)) * ax - (sx * (dz * by)) * ax) by (nonlinear_arith);
    assert((sx * (dy * bz)) * ax == ax * (bz * (dy * sx))) by (nonlinear_arith);
    assert((sx * (dz * by)) * ax == ax * (by * (dz * sx))) by (nonlinear_arith);
    assert((sy * (dz * bx - dx * bz)) * ax
        == (sy * (dz * bx)) * ax - (sy * (dx * bz)) * ax) by (nonlinear_arith);
    assert((sy * (dz * bx)) * ax == ax * (bx * (dz * sy))) by (nonlinear_arith);
    assert((sy * (dx * bz)) * ax == ax * (bz * (dx * sy))) by (nonlinear_arith);
    assert((sz * (dx * by - dy * bx)) * ax
        == (sz * (dx * by)) * ax - (sz * (dy * bx)) * ax) by (nonlinear_arith);
    assert((sz * (dx * by)) * ax == ax * (by * (dx * sz))) by (nonlinear_arith);
    assert((sz * (dy * bx)) * ax == ax * (bx * (dy * sz))) by (nonlinear_arith);
    assert((sx * (dy * bz - dz * by) + sy * (dz * bx - dx * bz) + sz * (dx * by - dy * bx)) * ax
        == (sx * (dy * bz - dz * by)) * ax
            + (sy * (dz * bx - dx * bz)) * ax
            + (sz * (dx * by - dy * bx)) * ax) by (nonlinear_arith);
    // the second weight times the second edge
    assert((dx * (sy * az - sz * ay)) * bx
        == (dx * (sy * az)) * bx - (dx * (sz * ay)) * bx) by (nonlinear_arith);
    assert((dx * (sy * az)) * bx == az * (bx * (dx * sy))) by (nonlinear_arith);
    assert((dx * (sz * ay)) * bx == ay * (bx * (dx * sz))) by (nonlinear_arith);
    assert((dy * (sz * ax - sx * az)) * bx
        == (dy * (sz * ax)) * bx - (dy * (sx * az)) * bx) by (nonlinear_arith);
    assert((dy * (sz * ax)) * bx == ax * (bx * (dy * sz))) by (nonlinear_arith);
    assert((dy * (sx * az)) * bx == az * (bx * (dy * sx))) by (nonlinear_arith);
    assert((dz * (sx * ay - sy * ax)) * bx
        == (dz * (sx * ay)) * bx - (dz * (sy * ax)) * bx) by (nonlinear_arith);
    assert((dz * (sx * ay)) * bx == ay * (bx * (dz * sx))) by (nonlinear_arith);
    assert((dz * (sy * ax)) * bx == ax * (bx * (dz * sy))) by (nonlinear_arith);
    assert((dx * (sy * az - sz * ay) + dy * (sz * ax - sx * az) + dz * (sx * ay - sy * ax)) * bx
        == (dx * (sy * az - sz * ay)) * bx
            + (dy * (sz * ax - sx * az)) * bx
            + (dz * (sx * ay - sy * ax)) * bx) by (nonlinear_arith);
}

/// The place that the intersection test computes is the point of the
/// triangle's plane with the weights that it computes.
pub proof fn lemma_lies_in_plane(tri: Triangle, start: Point, end: Point)
    ensures
        lies_in_plane(tri, start, end, crossing(tri, start, end)),
{
    let d = end.at().minus(start.at());
    let a = tri.v1.at().minus(tri.v0.at());
    let b = tri.v2.at().minus(tri.v0.at());
    let s = start.at().minus(tri.v0.at());
    let c = crossing(tri, start, end);
    lemma_cramer_axis(s.x, s.y, s.z, d.x, d.y, d.z, a.x, a.y, a.z, b.x, b.y, b.z);
    lemma_cramer_axis(s.y, s.z, s.x, d.y, d.z, d.x, a.y, a.z, a.x, b.y, b.z, b.x);
    lemma_cramer_axis(s.z, s.x, s.y, d.z, d.x, d.y, a.z, a.x, a.y, b.z, b.x, b.y);
    assert(c.den * s.x + c.t * d.x == c.u * a.x + c.v * b.x);
    assert(c.den * s.y + c.t * d.y == c.u * a.y + c.v * b.y);
    assert(c.den * s.z + c.t * d.z == c.u * a.z + c.v * b.z);
}

/// Where a segment meets a triangle: `den` times the point at the place
/// `t / den` of the segment.
pub open spec fn meeting_point(start: Point, end: Point, c: Crossing) -> Vector {
    let s = start.at();
    let d = end.at().minus(start.at());
    Vector { x: c.den * s.x + c.t * d.x, y: c.den * s.y + c.t * d.y, z: c.den * s.z + c.t * d.z }
}

/// The three vertices of a triangle with the weights `den - u - v`, `u`
/// and `v`, added up.
pub open spec fn weighted_corners(tri: Triangle, c: Crossing) -> Vector {
    let w = c.den - c.u - c.v;
    let (v0, v1, v2) = (tri.v0.at(), tri.v1.at(), tri.v2.at());
    Vector {
        x: w * v0.x + c.u * v1.x + c.v * v2.x,
        y: w * v0.y + c.u * v1.y + c.v * v2.y,
        z: w * v0.z + c.u * v1.z + c.v * v2.z,
    }
}

/// One coordinate of `lemma_hit_is_in_triangle`.
proof fn lemma_weights_axis(
    den: int,
    t: int,
    u: int,
    v: int,
    s: int,
    d: int,
    v0: int,
    v1: int,
    v2: int,
)
    requires
        den * (s - v0) + t * d == u * (v1 - v0) + v * (v2 - v0),
    ensures
        den * s + t * d == (den - u - v) * v0 + u * v1 + v * v2,
{
    assert(den * (s - v0) == den * s - den * v0) by (nonlinear_arith);
    assert(u * (v1 - v0) == u * v1 - u * v0) by (nonlinear_arith);
    assert(v * (v2 - v0) == v * v2 - v * v0) by (nonlinear_arith);
    assert((den - u - v) * v0 == den * v0 - u * v0 - v * v0) by (nonlinear_arith);
}

/// Where a segment meets a triangle, it meets it in a point of the
/// triangle: the point at the place found is the mean of the three
/// vertices with weights that are not negative.
pub proof fn lemma_hit_is_in_triangle(tri: Triangle, start: Point, end: Point)
    requires
        meets(tri, start, end),
    ensures
        ({
            let c = crossing(tri, start, end);
            &&& meeting_point(start, end, c) == weighted_corners(tri, c)
            &&& c.den - c.u - c.v >= 0 && c.u >= 0 && c.v >= 0
            &&& (c.den - c.u - c.v) + c.u + c.v == c.den
        }),
{
    let c = crossing(tri, start, end);
    let s = start.at();
    let d = end.at().minus(start.at());
    let (v0, v1, v2) = (tri.v0.at(), tri.v1.at(), tri.v2.at());
    lemma_lies_in_plane(tri, start, end);
    lemma_weights_axis(c.den, c.t, c.u, c.v, s.x, d.x, v0.x, v1.x, v2.x);
    lemma_weights_axis(c.den, c.t, c.u, c.v, s.y, d.y, v0.y, v1.y, v2.y);
    lemma_weights_axis(c.den, c.t, c.u, c.v, s.z, d.z, v0.z, v1.z, v2.z);
}

/// The place `t / q` of the segment from `start` to `end` is the point of
/// the triangle's plane with the weights `u / q` and `v / q` on the two
/// edges from the first vertex.
pub open spec fn solves(
    tri: Triangle,
    start: Point,
    end: Point,
    q: int,
    t: int,
    u: int,
    v: int,
) -> bool {
    lies_in_plane(tri, start, end, Crossing { den: q, u, v, t })
}

/// What the intersection test computes is the only answer: every place of
/// the segment that is a point of the triangle's plane, with whatever
/// weights, is the place that the test computes, with the weights that it
/// computes.
#[verifier::rlimit(40)]
pub proof fn lemma_crossing_is_the_only_one(
    tri: Triangle,
    start: Point,
    end: Point,
    q: int,
    t: int,
    u: int,
    v: int,
)
    requires
        solves(tri, start, end, q, t, u, v),
    ensures
        q * crossing(tri, start, end).t == t * crossing(tri, start, end).den,
        q * crossing(tri, start, end).u == u * crossing(tri, start, end).den,
        q * crossing(tri, start, end).v == v * crossing(tri, start, end).den,
{
    let d = end.at().minus(start.at());
    let e1 = tri.v1.at().minus(tri.v0.at());
    let e2 = tri.v2.at().minus(tri.v0.at());
    let s = start.at().minus(tri.v0.at());
    let c = crossing(tri, start, end);
    // across the segment and the second edge: what is left is the first weight
    let h = d.cross(e2);
    lemma_dot_of_sum(h, q, s, t, d);
    lemma_dot_of_sum(h, u, e1, v, e2);
    lemma_cross_is_across(d, e2);
    // across the first edge and the segment: what is left is the second weight
    let k = e1.cross(d);
    lemma_dot_of_sum(k, q, s, t, d);
    lemma_dot_of_sum(k, u, e1, v, e2);
    lemma_cross_is_across(e1, d);
    lemma_triple_turn(d, s, e1);
    lemma_triple_turn(e2, e1, d);
    // across both edges: what is left is the place
    let n = e1.cross(e2);
    lemma_dot_of_sum(n, q, s, t, d);
    lemma_dot_of_sum(n, u, e1, v, e2);
    lemma_cross_is_across(e1, e2);
    lemma_triple_turn(e2, s, e1);
    lemma_triple_swap(e1, d, e2);
    assert(c.u == s.dot(h) && c.den == e1.dot(h));
    assert(q * s.dot(h) + t * d.dot(h) == u * e1.dot(h) + v * e2.dot(h));
    assert(t * d.dot(h) == 0 && v * e2.dot(h) == 0) by (nonlinear_arith)
        requires
            d.dot(h) == 0,
            e2.dot(h) == 0,
    ;
    assert(c.v == s.dot(k) && c.den == e2.dot(k));
    assert(q * s.dot(k) + t * d.dot(k) == u * e1.dot(k) + v * e2.dot(k));
    assert(t * d.dot(k) == 0 && u * e1.dot(k) == 0) by (nonlinear_arith)
        requires
            d.dot(k) == 0,
            e1.dot(k) == 0,
    ;
    assert(c.t == s.dot(n) && c.den == -d.dot(n));
    assert(q * s.dot(n) + t * d.dot(n) == u * e1.dot(n) + v * e2.dot(n));
    assert(u * e1.dot(n) == 0 && v * e2.dot(n) == 0) by (nonlinear_arith)
        requires
            e1.dot(n) == 0,
            e2.dot(n) == 0,
    ;
    assert(t * d.dot(n) == -(t * c.den)) by (nonlinear_arith)
        requires
            c.den == -d.dot(n),
    ;
}

/// A segment that runs against the face normal of a triangle and has,
/// strictly between its ends, a point that is a mean of the triangle's
/// vertices with weights that are not negative, meets the triangle: the
/// test misses nothing.
pub proof fn lemma_point_of_triangle_is_hit(
    tri: Triangle,
    start: Point,
    end: Point,
    q: int,
    t: int,
    u: int,
    v: int,
)
    requires
        crossing(tri, start, end).den > 0,
        solves(tri, start, end, q, t, u, v),
        q > 0,
        0 < t < q,
        0 <= u,
        0 <= v,
        u + v <= q,
    ensures
        meets(tri, start, end),
{
    let c = crossing(tri, start, end);
    lemma_crossing_is_the_only_one(tri, start, end, q, t, u, v);
    lemma_same_part(q, t, c.den, c.t);
    lemma_same_part(q, u, c.den, c.u);
    lemma_same_part(q, v, c.den, c.v);
    assert(q * (c.den - c.t) == q * c.den - q * c.t) by (nonlinear_arith);
    assert((q - t) * c.den == q * c.den - t * c.den) by (nonlinear_arith);
    lemma_same_part(q, q - t, c.den, c.den - c.t);
    assert(q * (c.den - c.u - c.v) == q * c.den - q * c.u - q * c.v) by (nonlinear_arith);
    assert((q - u - v) * c.den == q * c.den - u * c.den - v * c.den) by (nonlinear_arith);
    lemma_same_part(q, q - u - v, c.den, c.den - c.u - c.v);
}

/// Two parts of two wholes that are to each other as the wholes are have
/// the same sign.
proof fn lemma_same_part(q: int, a: int, den: int, b: int)
    requires
        q > 0,
        den > 0,
        q * b == a * den,
    ensures
        a > 0 <==> b > 0,
        a >= 0 <==> b >= 0,
{
    assert(a > 0 ==> a * den > 0) by (nonlinear_arith)
        requires
            den > 0,
    ;
    assert(a < 0 ==> a * den < 0) by (nonlinear_arith)
        requires
            den > 0,
    ;
    assert(b > 0 ==> q * b > 0) by (nonlinear_arith)
        requires
            q > 0,
    ;
    assert(b < 0 ==> q * b < 0) by (nonlinear_arith)
        requires
            q > 0,
    ;
    assert(a == 0 ==> a * den == 0) by (nonlinear_arith);
    assert(b == 0 ==> q * b == 0) by (nonlinear_arith);
}

/// On the grid, what the intersection test computes fits in 64 bits.
pub proof fn lemma_crossing_small(tri: Triangle, start: Point, end: Point)
    requires
        tri.in_grid(),
        start.in_grid(),
        end.in_grid(),
    ensures
        -volume_limit() <= crossing(tri, start, end).den <= volume_limit(),
        -volume_limit() <= crossing(tri, start, end).t <= volume_limit(),
{
    let d = end.at().minus(start.at());
    let e1 = tri.v1.at().minus(tri.v0.at());
    let e2 = tri.v2.at().minus(tri.v0.at());
    let s = start.at().minus(tri.v0.at());
    lemma_triple_small(e1, d, e2);
    lemma_triple_small(e2, s, e1);
}

/// The denominator of the intersection test is how far the segment runs
/// against the face normal.
pub proof fn lemma_den_is_facing(tri: Triangle, start: Point, end: Point)
    ensures
        crossing(tri, start, end).den == -end.at().minus(start.at()).dot(tri.normal()),
{
    let d = end.at().minus(start.at());
    let e1 = tri.v1.at().minus(tri.v0.at());
    let e2 = tri.v2.at().minus(tri.v0.at());
    lemma_triple_swap(e1, d, e2);
}

/// A triangle is never hit from behind: a segment that does not run
/// against the face normal does not meet the triangle.
pub proof fn lemma_back_is_never_hit(tri: Triangle, start: Point, end: Point)
    requires
        end.at().minus(start.at()).dot(tri.normal()) >= 0,
    ensures
        hit_place(tri, start, end) is None,
{
    lemma_den_is_facing(tri, start, end);
}

/// A triangle that a segment meets has a face normal that is not zero.
pub proof fn lemma_hit_has_normal(tri: Triangle, start: Point, end: Point)
    requires
        meets(tri, start, end),
    ensures
        tri.normal().dot(tri.normal()) > 0,
{
    lemma_den_is_facing(tri, start, end);
    let n = tri.normal();
    let d = end.at().minus(start.at());
    if n.x == 0 && n.y == 0 && n.z == 0 {
        assert(d.dot(n) == 0) by (nonlinear_arith)
            requires
                n.x == 0 && n.y == 0 && n.z == 0,
                d.dot(n) == d.x * n.x + d.y * n.y + d.z * n.z,
        ;
    }
    assert(n.x * n.x + n.y * n.y + n.z * n.z > 0) by (nonlinear_arith)
        requires
            n.x != 0 || n.y != 0 || n.z != 0,
    ;
}

/// One condition on a place `t` along a segment: `rate * t >= least`.
#[derive(Clone, Copy, PartialEq, Eq, Structural, Debug)]
pub struct Limit {
    pub rate: i64,
    pub least: i64,
}

impl Limit {
    /// The place `p / q` meets the condition.
    pub open spec fn admits(self, p: int, q: int) -> bool {
        self.rate * p >= self.least * q
    }

    /// Both numbers are small enough to cross-multiply.
    pub open spec fn is_small(self) -> bool {
        &&& -volume_limit() <= self.rate <= volume_limit()
        &&& -volume_limit() <= self.least <= volume_limit()
    }
}

/// The conditions under which a place along the segment from `start` to
/// `end` lies in the box and not after `bound`: the place is not negative,
/// it is not after `bound`, and on each axis the point there is neither
/// below the box nor above it.
pub open spec fn box_limits(b: Aabb, start: Point, end: Point, bound: Fraction) -> Seq<Limit> {
    seq![
        Limit { rate: 1, least: 0 },
        Limit { rate: (-bound.den) as i64, least: (-bound.num) as i64 },
        Limit { rate: (end.x - start.x) as i64, least: (b.min.x - start.x) as i64 },
        Limit { rate: (start.x - end.x) as i64, least: (start.x - b.max.x) as i64 },
        Limit { rate: (end.y - start.y) as i64, least: (b.min.y - start.y) as i64 },
        Limit { rate: (start.y - end.y) as i64, least: (start.y - b.max.y) as i64 },
        Limit { rate: (end.z - start.z) as i64, least: (b.min.z - start.z) as i64 },
        Limit { rate: (start.z - end.z) as i64, least: (start.z - b.max.z) as i64 },
    ]
}

/// Some place meets all the conditions: none that `t` does not enter into
/// fails, and no lower bound on `t` lies above an upper bound.
pub open spec fn satisfiable(ls: Seq<Limit>) -> bool {
    &&& forall|i: int| 0 <= i < ls.len() && (#[trigger] ls[i]).rate == 0 ==> ls[i].least <= 0
    &&& forall|i: int, j: int|
        0 <= i < ls.len() && 0 <= j < ls.len() && (#[trigger] ls[i]).rate > 0 && (
        #[trigger] ls[j]).rate < 0 ==> ls[i].least * ls[j].rate >= ls[j].least * ls[i].rate
}

/// The segment from `start` to `end` has a point in the box at a place
/// that is not after `bound`.
pub open spec fn may_cross(b: Aabb, start: Point, end: Point, bound: Fraction) -> bool {
    satisfiable(box_limits(b, start, end, bound))
}

impl Aabb {
    /// Every corner coordinate is within the grid limit.
    pub open spec fn in_grid(self) -> bool {
        self.min.in_grid() && self.max.in_grid()
    }

    /// Whether the segment from `start` to `end` has a point in the box at
    /// a place that is not after `bound`.
    pub fn intersect(&self, start: &Point, end: &Point, bound: &Fraction) -> (hit: bool)
        requires
            self.in_grid(),
            start.in_grid(),
            end.in_grid(),
            bound.is_proper(),
        ensures
            hit == may_cross(*self, *start, *end, *bound),
    {
        let ls: [Limit; 8] = [
            Limit { rate: 1, least: 0 },
            Limit { rate: -bound.den, least: -bound.num },
            Limit { rate: end.x as i64 - start.x as i64, least: self.min.x as i64 - start.x as i64 },
            Limit { rate: start.x as i64 - end.x as i64, least: start.x as i64 - self.max.x as i64 },
            Limit { rate: end.y as i64 - start.y as i64, least: self.min.y as i64 - start.y as i64 },
            Limit { rate: start.y as i64 - end.y as i64, least: start.y as i64 - self.max.y as i64 },
            Limit { rate: end.z as i64 - start.z as i64, least: self.min.z as i64 - start.z as i64 },
            Limit { rate: start.z as i64 - end.z as i64, least: start.z as i64 - self.max.z as i64 },
        ];
        assert(ls@ =~= box_limits(*self, *start, *end, *bound));
        limits_agree(&ls)
    }
}

/// Whether some place meets all eight conditions.
fn limits_agree(ls: &[Limit; 8]) -> (ok: bool)
    requires
        forall|i: int| 0 <= i < 8 ==> (#[trigger] ls@[i]).is_small(),
    ensures
        ok == satisfiable(ls@),
{
    let mut i: usize = 0;
    while i < 8
        invariant
            0 <= i <= 8,
            forall|k: int| 0 <= k < 8 ==> (#[trigger] ls@[k]).is_small(),
            forall|k: int| 0 <= k < i && (#[trigger] ls@[k]).rate == 0 ==> ls@[k].least <= 0,
            forall|k: int, j: int|
                0 <= k < i && 0 <= j < 8 && (#[trigger] ls@[k]).rate > 0 && (#[trigger] ls@[j]).rate
                    < 0 ==> ls@[k].least * ls@[j].rate >= ls@[j].least * ls@[k].rate,
        decreases 8 - i,
    {
        let a = ls[i];
        if a.rate == 0 {
            if a.least > 0 {
                return false;
            }
        } else if a.rate > 0 {
            let mut j: usize = 0;
            while j < 8
                invariant
                    0 <= j <= 8,
                    0 <= i < 8,
                    a == ls@[i as int],
                    a.rate > 0,
                    forall|k: int| 0 <= k < 8 ==> (#[trigger] ls@[k]).is_small(),
                    forall|m: int|
                        0 <= m < j && (#[trigger] ls@[m]).rate < 0 ==> a.least * ls@[m].rate
                            >= ls@[m].least * a.rate,
                decreases 8 - j,
            {
                let b = ls[j];
                if b.rate < 0 {
                    proof {
                        lemma_mul_bounds(
                            a.least as int,
                            b.rate as int,
                            volume_limit(),
                            volume_limit(),
                        );
                        lemma_mul_bounds(
                            b.least as int,
                            a.rate as int,
                            volume_limit(),
                            volume_limit(),
                        );
                    }
                    if (a.least as i128) * (b.rate as i128) < (b.least as i128) * (a.rate as i128) {
                        return false;
                    }
                }
                j = j + 1;
            }
        }
        i = i + 1;
    }
    true
}

/// Conditions that one place meets are satisfiable.
pub proof fn lemma_admitted_is_satisfiable(ls: Seq<Limit>, p: int, q: int)
    requires
        q > 0,
        forall|i: int| 0 <= i < ls.len() ==> (#[trigger] ls[i]).admits(p, q),
    ensures
        satisfiable(ls),
{
    assert forall|i: int| 0 <= i < ls.len() && (#[trigger] ls[i]).rate == 0 implies ls[i].least
        <= 0 by {
        let l = ls[i];
        assert(l.admits(p, q));
        assert(l.least <= 0) by (nonlinear_arith)
            requires
                q > 0,
                l.rate == 0,
                l.rate * p >= l.least * q,
        ;
    }
    assert forall|i: int, j: int|
        0 <= i < ls.len() && 0 <= j < ls.len() && (#[trigger] ls[i]).rate > 0 && (
        #[trigger] ls[j]).rate < 0 implies ls[i].least * ls[j].rate >= ls[j].least
        * ls[i].rate by {
        let a = ls[i];
        let b = ls[j];
        assert(a.admits(p, q));
        assert(b.admits(p, q));
        lemma_bounds_cross(a.rate as int, a.least as int, b.rate as int, b.least as int, p, q);
    }
}

/// A lower bound and an upper bound that one place meets do not cross.
proof fn lemma_bounds_cross(ar: int, al: int, br: int, bl: int, p: int, q: int)
    requires
        q > 0,
        ar > 0,
        br < 0,
        ar * p >= al * q,
        br * p >= bl * q,
    ensures
        al * br >= bl * ar,
{
    // scale the first by -br and the second by ar, and add
    assert((-br) * (ar * p) >= (-br) * (al * q)) by (nonlinear_arith)
        requires
            br < 0,
            ar * p >= al * q,
    ;
    assert(ar * (br * p) >= ar * (bl * q)) by (nonlinear_arith)
        requires
            ar > 0,
            br * p >= bl * q,
    ;
    assert((-br) * (ar * p) + ar * (br * p) == 0) by (nonlinear_arith);
    assert((-br) * (al * q) + ar * (bl * q) == (bl * ar - al * br) * q) by (nonlinear_arith);
    assert((bl * ar - al * br) * q <= 0);
    assert(bl * ar - al * br <= 0) by (nonlinear_arith)
        requires
            q > 0,
            (bl * ar - al * br) * q <= 0,
    ;
}

/// A point with weights that are not negative on three values lies at or
/// above each value that none of the three is below. The point is `q * sx
/// + p * dx`, the weights are `q - u - v`, `u` and `v`, and all are taken
/// `q` times.
proof fn lemma_weighted_low(
    q: int,
    u: int,
    v: int,
    p: int,
    dx: int,
    sx: int,
    v0: int,
    v1: int,
    v2: int,
    m: int,
)
    requires
        q * (sx - v0) + p * dx == u * (v1 - v0) + v * (v2 - v0),
        u >= 0,
        v >= 0,
        u + v <= q,
        m <= v0,
        m <= v1,
        m <= v2,
    ensures
        m * q <= sx * q + dx * p,
{
    assert(u * (v1 - m) >= 0) by (nonlinear_arith)
        requires
            u >= 0,
            m <= v1,
    ;
    assert(v * (v2 - m) >= 0) by (nonlinear_arith)
        requires
            v >= 0,
            m <= v2,
    ;
    assert((q - u - v) * (v0 - m) >= 0) by (nonlinear_arith)
        requires
            u + v <= q,
            m <= v0,
    ;
    // multiply everything out; what is left is linear in the products
    assert(q * (sx - v0) == q * sx - q * v0) by (nonlinear_arith);
    assert(u * (v1 - v0) == u * v1 - u * v0) by (nonlinear_arith);
    assert(v * (v2 - v0) == v * v2 - v * v0) by (nonlinear_arith);
    assert(u * (v1 - m) == u * v1 - u * m) by (nonlinear_arith);
    assert(v * (v2 - m) == v * v2 - v * m) by (nonlinear_arith);
    assert((q - u - v) * (v0 - m) == q * v0 - q * m - u * v0 + u * m - v * v0 + v * m)
        by (nonlinear_arith);
    assert(m * q == q * m && sx * q == q * sx && dx * p == p * dx) by (nonlinear_arith);
    assert(sx * q + dx * p - m * q == u * (v1 - m) + v * (v2 - m) + (q - u - v) * (v0 - m));
}

/// The same from above: the point lies at or below each value that none of
/// the three is above.
proof fn lemma_weighted_high(
    q: int,
    u: int,
    v: int,
    p: int,
    dx: int,
    sx: int,
    v0: int,
    v1: int,
    v2: int,
    m: int,
)
    requires
        q * (sx - v0) + p * dx == u * (v1 - v0) + v * (v2 - v0),
        u >= 0,
        v >= 0,
        u + v <= q,
        v0 <= m,
        v1 <= m,
        v2 <= m,
    ensures
        sx * q + dx * p <= m * q,
{
    assert(q * ((-sx) - (-v0)) == -(q * (sx - v0))) by (nonlinear_arith);
    assert(p * (-dx) == -(p * dx)) by (nonlinear_arith);
    assert(u * ((-v1) - (-v0)) == -(u * (v1 - v0))) by (nonlinear_arith);
    assert(v * ((-v2) - (-v0)) == -(v * (v2 - v0))) by (nonlinear_arith);
    lemma_weighted_low(q, u, v, p, -dx, -sx, -v0, -v1, -v2, -m);
    assert((-m) * q == -(m * q) && (-sx) * q == -(sx * q) && (-dx) * p == -(dx * p))
        by (nonlinear_arith);
}

/// A segment that meets a triangle not after `bound` has, not after
/// `bound`, a point in every box that holds the triangle.
pub proof fn lemma_hit_crosses_box(
    tri: Triangle,
    start: Point,
    end: Point,
    b: Aabb,
    bound: Fraction,
)
    requires
        meets(tri, start, end),
        b.contains_triangle(tri),
        b.in_grid(),
        start.in_grid(),
        end.in_grid(),
        bound.is_proper(),
        crossing(tri, start, end).t * bound.den <= bound.num * crossing(tri, start, end).den,
    ensures
        may_cross(b, start, end, bound),
{
    let c = crossing(tri, start, end);
    let (p, q) = (c.t, c.den);
    let (v0, v1, v2) = (tri.v0.at(), tri.v1.at(), tri.v2.at());
    let (s, d) = (start.at(), end.at().minus(start.at()));
    lemma_lies_in_plane(tri, start, end);
    lemma_weighted_low(q, c.u, c.v, p, d.x, s.x, v0.x, v1.x, v2.x, b.min.x as int);
    lemma_weighted_high(q, c.u, c.v, p, d.x, s.x, v0.x, v1.x, v2.x, b.max.x as int);
    lemma_weighted_low(q, c.u, c.v, p, d.y, s.y, v0.y, v1.y, v2.y, b.min.y as int);
    lemma_weighted_high(q, c.u, c.v, p, d.y, s.y, v0.y, v1.y, v2.y, b.max.y as int);
    lemma_weighted_low(q, c.u, c.v, p, d.z, s.z, v0.z, v1.z, v2.z, b.min.z as int);
    lemma_weighted_high(q, c.u, c.v, p, d.z, s.z, v0.z, v1.z, v2.z, b.max.z as int);
    lemma_point_inside_crosses(b, start, end, bound, p, q);
}

/// A segment with a point in the box, at a place that is not after
/// `bound`, passes the box test.
pub proof fn lemma_point_inside_crosses(
    b: Aabb,
    start: Point,
    end: Point,
    bound: Fraction,
    p: int,
    q: int,
)
    requires
        b.in_grid(),
        start.in_grid(),
        end.in_grid(),
        bound.is_proper(),
        inside_at(b, start, end, bound, p, q),
    ensures
        may_cross(b, start, end, bound),
{
    let ls = box_limits(b, start, end, bound);
    assert(ls[0].admits(p, q)) by (nonlinear_arith)
        requires
            ls[0].rate == 1,
            ls[0].least == 0,
            p >= 0,
    ;
    assert(ls[1].admits(p, q)) by {
        assert((-bound.den) * p >= (-bound.num) * q) by (nonlinear_arith)
            requires
                p * bound.den <= bound.num * q,
        ;
    }
    assert(ls[2].admits(p, q)) by {
        assert((b.min.x - start.x) * q == b.min.x * q - start.x * q) by (nonlinear_arith);
    }
    assert(ls[3].admits(p, q)) by {
        assert((start.x - b.max.x) * q == start.x * q - b.max.x * q) by (nonlinear_arith);
        assert((start.x - end.x) * p == -((end.x - start.x) * p)) by (nonlinear_arith);
    }
    assert(ls[4].admits(p, q)) by {
        assert((b.min.y - start.y) * q == b.min.y * q - start.y * q) by (nonlinear_arith);
    }
    assert(ls[5].admits(p, q)) by {
        assert((start.y - b.max.y) * q == start.y * q - b.max.y * q) by (nonlinear_arith);
        assert((start.y - end.y) * p == -((end.y - start.y) * p)) by (nonlinear_arith);
    }
    assert(ls[6].admits(p, q)) by {
        assert((b.min.z - start.z) * q == b.min.z * q - start.z * q) by (nonlinear_arith);
    }
    assert(ls[7].admits(p, q)) by {
        assert((start.z - b.max.z) * q == start.z * q - b.max.z * q) by (nonlinear_arith);
        assert((start.z - end.z) * p == -((end.z - start.z) * p)) by (nonlinear_arith);
    }
    assert forall|i: int| 0 <= i < ls.len() implies (#[trigger] ls[i]).admits(p, q) by {
        if i == 0 {
        } else if i == 1 {
        } else if i == 2 {
        } else if i == 3 {
        } else if i == 4 {
        } else if i == 5 {
        } else if i == 6 {
        } else {
            assert(i == 7);
        }
    }
    lemma_admitted_is_satisfiable(ls, p, q);
}

/// Among the first `count` conditions, the place of one that bounds `t`
/// from below and is no less strict than any other of them that does.
spec fn strictest_lower(ls: Seq<Limit>, count: int) -> int
    decreases count,
{
    if count <= 1 {
        0
    } else {
        let before = strictest_lower(ls, count - 1);
        let this = ls[count - 1];
        if this.rate > 0 && this.least * ls[before].rate > ls[before].least * this.rate {
            count - 1
        } else {
            before
        }
    }
}

/// Of two lower bounds, one that is no less strict than a second that is
/// no less strict than a third is no less strict than the third.
proof fn lemma_lower_chain(al: int, ar: int, bl: int, br: int, cl: int, cr: int)
    requires
        ar > 0,
        br > 0,
        cr > 0,
        al * br >= bl * ar,
        bl * cr >= cl * br,
    ensures
        al * cr >= cl * ar,
{
    assert((al * br) * cr >= (bl * ar) * cr) by (nonlinear_arith)
        requires
            al * br >= bl * ar,
            cr > 0,
    ;
    assert((bl * cr) * ar >= (cl * br) * ar) by (nonlinear_arith)
        requires
            bl * cr >= cl * br,
            ar > 0,
    ;
    assert((bl * ar) * cr == (bl * cr) * ar) by (nonlinear_arith);
    assert((al * br) * cr == (al * cr) * br) by (nonlinear_arith);
    assert((cl * br) * ar == (cl * ar) * br) by (nonlinear_arith);
    assert(al * cr >= cl * ar) by (nonlinear_arith)
        requires
            (al * cr) * br >= (cl * ar) * br,
            br > 0,
    ;
}

/// The strictest lower bound is one, and none of the others is stricter.
proof fn lemma_strictest_lower(ls: Seq<Limit>, count: int)
    requires
        1 <= count <= ls.len(),
        ls[0].rate > 0,
    ensures
        0 <= strictest_lower(ls, count) < count,
        ls[strictest_lower(ls, count)].rate > 0,
        forall|j: int|
            0 <= j < count && (#[trigger] ls[j]).rate > 0 ==> ls[strictest_lower(ls, count)].least
                * ls[j].rate >= ls[j].least * ls[strictest_lower(ls, count)].rate,
    decreases count,
{
    if count > 1 {
        lemma_strictest_lower(ls, count - 1);
        let before = strictest_lower(ls, count - 1);
        let now = strictest_lower(ls, count);
        let this = ls[count - 1];
        assert forall|j: int| 0 <= j < count && (#[trigger] ls[j]).rate > 0 implies ls[now].least
            * ls[j].rate >= ls[j].least * ls[now].rate by {
            if now == before {
                if j == count - 1 {
                    assert(this.least * ls[before].rate <= ls[before].least * this.rate);
                    assert(ls[before].least * this.rate == ls[before].least * ls[j].rate);
                }
            } else {
                if j < count - 1 {
                    lemma_lower_chain(
                        this.least as int,
                        this.rate as int,
                        ls[before].least as int,
                        ls[before].rate as int,
                        ls[j].least as int,
                        ls[j].rate as int,
                    );
                }
            }
        }
    }
}

/// Conditions that are satisfiable are met by some place, where one of
/// them bounds the place from below: by the place of the strictest lower
/// bound.
pub proof fn lemma_satisfiable_is_admitted(ls: Seq<Limit>) -> (place: (int, int))
    requires
        satisfiable(ls),
        ls.len() > 0,
        ls[0].rate > 0,
    ensures
        place.1 > 0,
        forall|i: int| 0 <= i < ls.len() ==> (#[trigger] ls[i]).admits(place.0, place.1),
{
    lemma_strictest_lower(ls, ls.len() as int);
    let k = strictest_lower(ls, ls.len() as int);
    let (p, q) = (ls[k].least as int, ls[k].rate as int);
    assert forall|i: int| 0 <= i < ls.len() implies (#[trigger] ls[i]).admits(p, q) by {
        let l = ls[i];
        if l.rate == 0 {
            assert(l.rate * p == 0) by (nonlinear_arith)
                requires
                    l.rate == 0,
            ;
            assert(l.least * q <= 0) by (nonlinear_arith)
                requires
                    l.least <= 0,
                    q > 0,
            ;
        } else if l.rate > 0 {
            assert(ls[k].least * l.rate >= l.least * ls[k].rate);
            assert(l.rate * p == p * l.rate) by (nonlinear_arith);
        } else {
            assert(ls[k].least * l.rate >= l.least * ls[k].rate);
            assert(l.rate * p == p * l.rate) by (nonlinear_arith);
        }
    }
    (p, q)
}

/// The point at the place `p / q` of the segment from `start` to `end`
/// lies in the box, and the place is neither negative nor after `bound`.
pub open spec fn inside_at(b: Aabb, start: Point, end: Point, bound: Fraction, p: int, q: int) -> bool {
    &&& q > 0
    &&& 0 <= p
    &&& p * bound.den <= bound.num * q
    &&& b.min.x * q <= start.x * q + (end.x - start.x) * p <= b.max.x * q
    &&& b.min.y * q <= start.y * q + (end.y - start.y) * p <= b.max.y * q
    &&& b.min.z * q <= start.z * q + (end.z - start.z) * p <= b.max.z * q
}

/// A segment that passes the box test has a point in the box, at a place
/// that is not after `bound`: the test lets nothing through that it should
/// not.
pub proof fn lemma_crossing_is_inside(b: Aabb, start: Point, end: Point, bound: Fraction) -> (place:
    (int, int))
    requires
        b.in_grid(),
        start.in_grid(),
        end.in_grid(),
        bound.is_proper(),
        may_cross(b, start, end, bound),
    ensures
        inside_at(b, start, end, bound, place.0, place.1),
{
    let ls = box_limits(b, start, end, bound);
    let (p, q) = lemma_satisfiable_is_admitted(ls);
    assert(ls[0].admits(p, q));
    assert(ls[1].admits(p, q));
    assert(ls[2].admits(p, q));
    assert(ls[3].admits(p, q));
    assert(ls[4].admits(p, q));
    assert(ls[5].admits(p, q));
    assert(ls[6].admits(p, q));
    assert(ls[7].admits(p, q));
    assert(0 <= p) by (nonlinear_arith)
        requires
            ls[0].rate == 1,
            ls[0].least == 0,
            ls[0].rate * p >= ls[0].least * q,
    ;
    assert(p * bound.den <= bound.num * q) by (nonlinear_arith)
        requires
            (-bound.den) * p >= (-bound.num) * q,
    ;
    assert((b.min.x - start.x) * q == b.min.x * q - start.x * q) by (nonlinear_arith);
    assert((start.x - b.max.x) * q == start.x * q - b.max.x * q) by (nonlinear_arith);
    assert((start.x - end.x) * p == -((end.x - start.x) * p)) by (nonlinear_arith);
    assert((b.min.y - start.y) * q == b.min.y * q - start.y * q) by (nonlinear_arith);
    assert((start.y - b.max.y) * q == start.y * q - b.max.y * q) by (nonlinear_arith);
    assert((start.y - end.y) * p == -((end.y - start.y) * p)) by (nonlinear_arith);
    assert((b.min.z - start.z) * q == b.min.z * q - start.z * q) by (nonlinear_arith);
    assert((start.z - b.max.z) * q == start.z * q - b.max.z * q) by (nonlinear_arith);
    assert((start.z - end.z) * p == -((end.z - start.z) * p)) by (nonlinear_arith);
    (p, q)
}

/// Conditions of which one asks for a place before the start of the
/// segment, or for one after `bound`, are not satisfiable.
proof fn lemma_one_limit_fails(ls: Seq<Limit>, bound: Fraction, k: int)
    requires
        ls.len() == 8,
        2 <= k < 8,
        bound.is_proper(),
        ls[0] == (Limit { rate: 1, least: 0 }),
        ls[1] == (Limit { rate: (-bound.den) as i64, least: (-bound.num) as i64 }),
        ls[k].least > 0,
        ls[k].least > ls[k].rate,
    ensures
        !satisfiable(ls),
{
    let l = ls[k];
    if l.rate == 0 {
    } else if l.rate < 0 {
        // an upper bound below the start
        assert(ls[0].least * l.rate == 0) by (nonlinear_arith)
            requires
                ls[0].least == 0,
        ;
        assert(l.least * ls[0].rate == l.least) by (nonlinear_arith)
            requires
                ls[0].rate == 1,
        ;
    } else {
        // a lower bound above one, and so above `bound`
        let up = ls[1];
        assert(l.least * up.rate < up.least * l.rate) by (nonlinear_arith)
            requires
                up.rate == -bound.den,
                up.least == -bound.num,
                0 < bound.den,
                0 <= bound.num <= bound.den,
                l.least > l.rate,
                l.rate > 0,
        ;
    }
}

/// A segment whose two ends lie on the same side of the box along one
/// axis, strictly outside it, fails the box test.
pub proof fn lemma_outside_never_crosses(
    b: Aabb,
    start: Point,
    end: Point,
    bound: Fraction,
    axis: int,
)
    requires
        b.in_grid(),
        start.in_grid(),
        end.in_grid(),
        bound.is_proper(),
        0 <= axis < 3,
        (start.coord(axis) < b.min.coord(axis) && end.coord(axis) < b.min.coord(axis)) || (
        start.coord(axis) > b.max.coord(axis) && end.coord(axis) > b.max.coord(axis)),
    ensures
        !may_cross(b, start, end, bound),
{
    let ls = box_limits(b, start, end, bound);
    let below = start.coord(axis) < b.min.coord(axis) && end.coord(axis) < b.min.coord(axis);
    let k = 2 + 2 * axis + if below {
        0int
    } else {
        1int
    };
    if axis == 0 {
        assert(ls[2].least == b.min.x - start.x && ls[2].rate == end.x - start.x);
        assert(ls[3].least == start.x - b.max.x && ls[3].rate == start.x - end.x);
    } else if axis == 1 {
        assert(ls[4].least == b.min.y - start.y && ls[4].rate == end.y - start.y);
        assert(ls[5].least == start.y - b.max.y && ls[5].rate == start.y - end.y);
    } else {
        assert(ls[6].least == b.min.z - start.z && ls[6].rate == end.z - start.z);
        assert(ls[7].least == start.z - b.max.z && ls[7].rate == start.z - end.z);
    }
    lemma_one_limit_fails(ls, bound, k);
}

/// A triangle that the segment meets, by its index, and where along the
/// segment.
pub struct Found {
    pub index: int,
    pub place: Fraction,
}

/// A hit at `place` replaces `best`: there was none, or this one comes
/// strictly before it.
pub open spec fn improves(place: Fraction, best: Option<Found>) -> bool {
    match best {
        None => true,
        Some(f) => place.before(f.place),
    }
}

/// The first hit among `init` and the triangles `tris[lo..hi]`, taken in
/// order: a triangle replaces what was found before it only where the
/// segment meets it strictly earlier.
pub open spec fn sweep(
    tris: Seq<Triangle>,
    start: Point,
    end: Point,
    lo: int,
    hi: int,
    init: Option<Found>,
) -> Option<Found>
    decreases hi - lo,
{
    if hi <= lo {
        init
    } else {
        let before = sweep(tris, start, end, lo, hi - 1, init);
        match hit_place(tris[hi - 1], start, end) {
            Some(place) => if improves(place, before) {
                Some(Found { index: hi - 1, place })
            } else {
                before
            },
            None => before,
        }
    }
}

/// The triangle that the segment from `start` to `end` meets first, and
/// where; of several that it meets at the same place, the one with the
/// least index.
pub open spec fn first_hit(tris: Seq<Triangle>, start: Point, end: Point) -> Option<Found> {
    sweep(tris, start, end, 0, tris.len() as int, None)
}

/// What a sweep finds is the first hit: the segment meets the triangle
/// found at the place found, it meets no triangle strictly earlier, and it
/// meets every triangle of lesser index strictly later. A sweep finds
/// nothing only where the segment meets no triangle.
pub open spec fn is_first_hit(
    tris: Seq<Triangle>,
    start: Point,
    end: Point,
    hi: int,
    found: Option<Found>,
) -> bool {
    match found {
        None => forall|k: int| 0 <= k < hi ==> hit_place(#[trigger] tris[k], start, end) is None,
        Some(f) => {
            &&& 0 <= f.index < hi
            &&& hit_place(tris[f.index], start, end) == Some(f.place)
            &&& forall|k: int|
                0 <= k < hi ==> match hit_place(#[trigger] tris[k], start, end) {
                    None => true,
                    Some(place) => !place.before(f.place) && (k < f.index ==> f.place.before(
                        place,
                    )),
                }
        },
    }
}

/// Sweeping a run is sweeping its first part and then the rest.
pub proof fn lemma_sweep_parts(
    tris: Seq<Triangle>,
    start: Point,
    end: Point,
    lo: int,
    mid: int,
    hi: int,
    init: Option<Found>,
)
    requires
        lo <= mid <= hi,
    ensures
        sweep(tris, start, end, lo, hi, init) == sweep(
            tris,
            start,
            end,
            mid,
            hi,
            sweep(tris, start, end, lo, mid, init),
        ),
    decreases hi - mid,
{
    if hi > mid {
        lemma_sweep_parts(tris, start, end, lo, mid, hi - 1, init);
    }
}

/// A run in which nothing improves on what was found leaves it as it was.
pub proof fn lemma_sweep_idle(
    tris: Seq<Triangle>,
    start: Point,
    end: Point,
    lo: int,
    hi: int,
    init: Option<Found>,
)
    requires
        forall|k: int|
            lo <= k < hi ==> match hit_place(#[trigger] tris[k], start, end) {
                Some(place) => !improves(place, init),
                None => true,
            },
    ensures
        sweep(tris, start, end, lo, hi, init) == init,
    decreases hi - lo,
{
    if hi > lo {
        lemma_sweep_idle(tris, start, end, lo, hi - 1, init);
        assert(match hit_place(tris[hi - 1], start, end) {
            Some(place) => !improves(place, init),
            None => true,
        });
    }
}

/// Sweeping the first `hi` triangles finds the first hit among them.
#[verifier::rlimit(40)]
pub proof fn lemma_sweep_finds_first(tris: Seq<Triangle>, start: Point, end: Point, hi: int)
    requires
        0 <= hi <= tris.len(),
        forall|k: int| 0 <= k < hi ==> (#[trigger] tris[k]).in_grid(),
        start.in_grid(),
        end.in_grid(),
    ensures
        is_first_hit(tris, start, end, hi, sweep(tris, start, end, 0, hi, None)),
    decreases hi,
{
    if hi > 0 {
        lemma_sweep_finds_first(tris, start, end, hi - 1);
        let before = sweep(tris, start, end, 0, hi - 1, None);
        let tri = tris[hi - 1];
        assert(tri.in_grid());
        lemma_crossing_small(tri, start, end);
        match hit_place(tri, start, end) {
            Some(place) => {
                if improves(place, before) {
                    assert forall|k: int| 0 <= k < hi implies match hit_place(
                        #[trigger] tris[k],
                        start,
                        end,
                    ) {
                        None => true,
                        Some(other) => !other.before(place) && (k < hi - 1 ==> place.before(other)),
                    } by {
                        if k < hi - 1 {
                            assert(tris[k].in_grid());
                            lemma_crossing_small(tris[k], start, end);
                            match hit_place(tris[k], start, end) {
                                Some(other) => {
                                    let g = before->0;
                                    assert(hit_place(tris[g.index], start, end) == Some(g.place));
                                    assert(tris[g.index].in_grid());
                                    lemma_crossing_small(tris[g.index], start, end);
                                    lemma_before_chain(place, g.place, other);
                                },
                                None => {},
                            }
                        }
                    }
                } else {
                    assert forall|k: int| 0 <= k < hi implies match hit_place(
                        #[trigger] tris[k],
                        start,
                        end,
                    ) {
                        None => true,
                        Some(other) => !other.before(before->0.place) && (k < before->0.index
                            ==> before->0.place.before(other)),
                    } by {}
                }
            },
            None => {},
        }
    }
}

/// On the grid the exact box of a run that is not empty lies on the grid.
pub proof fn lemma_bounds_in_grid(tris: Seq<Triangle>, lo: int, hi: int)
    requires
        0 <= lo < hi <= tris.len(),
        forall|k: int| lo <= k < hi ==> (#[trigger] tris[k]).in_grid(),
    ensures
        bounds_of(tris, lo, hi).in_grid(),
{
    let a = lemma_range_low_attained(tris, lo, hi, 0);
    let b = lemma_range_low_attained(tris, lo, hi, 1);
    let c = lemma_range_low_attained(tris, lo, hi, 2);
    let d = lemma_range_high_attained(tris, lo, hi, 0);
    let e = lemma_range_high_attained(tris, lo, hi, 1);
    let f = lemma_range_high_attained(tris, lo, hi, 2);
    assert(tris[a].in_grid() && tris[b].in_grid() && tris[c].in_grid());
    assert(tris[d].in_grid() && tris[e].in_grid() && tris[f].in_grid());
}

/// The place that a hit must come before to count: that of the best hit so
/// far, or the end of the segment.
pub open spec fn bound_of(best: Option<Found>) -> Fraction {
    match best {
        Some(f) => f.place,
        None => Fraction::one(),
    }
}

/// A box that the segment does not cross before `bound` holds no triangle
/// that improves on a hit at `bound`; and where nothing was hit yet and
/// the box is not crossed at all, it holds no triangle that is hit.
pub proof fn lemma_pruned_run_is_idle(
    tris: Seq<Triangle>,
    start: Point,
    end: Point,
    lo: int,
    hi: int,
    best: Option<Found>,
)
    requires
        0 <= lo < hi <= tris.len(),
        forall|k: int| lo <= k < hi ==> (#[trigger] tris[k]).in_grid(),
        start.in_grid(),
        end.in_grid(),
        best is Some ==> best->0.place.is_proper(),
        !may_cross(bounds_of(tris, lo, hi), start, end, bound_of(best)),
    ensures
        sweep(tris, start, end, lo, hi, best) == best,
{
    let b = bounds_of(tris, lo, hi);
    lemma_bounds_in_grid(tris, lo, hi);
    assert forall|k: int| lo <= k < hi implies match hit_place(#[trigger] tris[k], start, end) {
        Some(place) => !improves(place, best),
        None => true,
    } by {
        let tri = tris[k];
        if meets(tri, start, end) {
            let c = crossing(tri, start, end);
            lemma_crossing_small(tri, start, end);
            lemma_bounds_hold_triangle(tris, lo, hi, k);
            let place = Fraction { num: c.t as i64, den: c.den as i64 };
            if improves(place, best) {
                let bound = bound_of(best);
                assert(c.t * bound.den <= bound.num * c.den) by {
                    if best is Some {
                        assert(place.before(bound));
                    } else {
                        assert(c.t * 1 <= 1 * c.den);
                    }
                }
                lemma_hit_crosses_box(tri, start, end, b, bound);
                assert(false);
            }
        }
    }
    lemma_sweep_idle(tris, start, end, lo, hi, best);
}

/// A hit of a query: the index of the triangle in the mesh, the place
/// along the segment, and the point there, each coordinate rounded toward
/// the start of the segment.
#[derive(Clone, Copy, PartialEq, Eq, Structural, Debug)]
pub struct Hit {
    pub triangle: u32,
    pub place: Fraction,
    pub position: Point,
}

/// The coordinate at `place` of the way from `a` to `b`, rounded toward
/// `a`.
pub open spec fn coord_at(a: i32, b: i32, place: Fraction) -> int {
    a + toward_zero((b - a) * place.num, place.den as int)
}

/// The point at `place` of the way from `start` to `end`, each coordinate
/// rounded toward `start`.
pub open spec fn point_at(start: Point, end: Point, place: Fraction) -> Point {
    Point {
        x: coord_at(start.x, end.x, place) as i32,
        y: coord_at(start.y, end.y, place) as i32,
        z: coord_at(start.z, end.z, place) as i32,
    }
}

/// The coordinate at `place` of the way from `a` to `b`.
fn coord_along(a: i32, b: i32, place: &Fraction) -> (c: i32)
    requires
        -GRID_LIMIT <= a <= GRID_LIMIT,
        -GRID_LIMIT <= b <= GRID_LIMIT,
        place.is_proper(),
    ensures
        c == coord_at(a, b, *place),
        a <= b ==> a <= c <= b,
        b <= a ==> b <= c <= a,
{
    let d: i64 = b as i64 - a as i64;
    let den: i128 = place.den as i128;
    let num: i128 = place.num as i128;
    if d >= 0 {
        proof {
            lemma_mul_bounds(d as int, num as int, span_limit(), volume_limit());
            lemma_part_of(d as int, num as int, den as int);
        }
        let q: i128 = ((d as i128) * num) / den;
        (a as i64 + q as i64) as i32
    } else {
        proof {
            lemma_mul_bounds(-d as int, num as int, span_limit(), volume_limit());
            lemma_part_of(-d as int, num as int, den as int);
            assert((-d) * num == -(d * num)) by (nonlinear_arith);
        }
        let q: i128 = ((-(d as i128)) * num) / den;
        (a as i64 - q as i64) as i32
    }
}

/// The point at `place` of the way from `start` to `end`.
pub fn point_along(start: &Point, end: &Point, place: &Fraction) -> (p: Point)
    requires
        start.in_grid(),
        end.in_grid(),
        place.is_proper(),
    ensures
        p == point_at(*start, *end, *place),
        p.in_grid(),
{
    Point {
        x: coord_along(start.x, end.x, place),
        y: coord_along(start.y, end.y, place),
        z: coord_along(start.z, end.z, place),
    }
}

} // verus!
