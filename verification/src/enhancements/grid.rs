//! The integer grid that all geometry lives on: the limit of its
//! coordinates, vectors between its points, and the exact arithmetic on
//! them.

use vstd::prelude::*;
use crate::enhancements::geometry::Point;
use crate::enhancements::geometry::Triangle;

verus! {

/// The greatest magnitude of a coordinate that the queries take.
pub const GRID_LIMIT: i32 = 524288;

/// The greatest magnitude of the difference of two grid coordinates.
pub open spec fn span_limit() -> int {
    1048576
}

/// The greatest magnitude of a coordinate of the cross product of two
/// differences.
pub open spec fn area_limit() -> int {
    2199023255552
}

/// The greatest magnitude of the dot product of a difference with such a
/// cross product.
pub open spec fn volume_limit() -> int {
    6917529027641081856
}

/// A vector with whole coordinates of any size.
pub struct Vector {
    pub x: int,
    pub y: int,
    pub z: int,
}

impl Vector {
    /// The difference of two vectors.
    pub open spec fn minus(self, other: Vector) -> Vector {
        Vector { x: self.x - other.x, y: self.y - other.y, z: self.z - other.z }
    }

    /// The cross product of two vectors.
    pub open spec fn cross(self, other: Vector) -> Vector {
        Vector {
            x: self.y * other.z - self.z * other.y,
            y: self.z * other.x - self.x * other.z,
            z: self.x * other.y - self.y * other.x,
        }
    }

    /// The dot product of two vectors.
    pub open spec fn dot(self, other: Vector) -> int {
        self.x * other.x + self.y * other.y + self.z * other.z
    }

    /// No coordinate is greater in magnitude than `bound`.
    pub open spec fn within(self, bound: int) -> bool {
        &&& -bound <= self.x <= bound
        &&& -bound <= self.y <= bound
        &&& -bound <= self.z <= bound
    }
}

impl Point {
    /// The point as a vector from the origin.
    pub open spec fn at(self) -> Vector {
        Vector { x: self.x as int, y: self.y as int, z: self.z as int }
    }

    /// Every coordinate is within the grid limit.
    pub open spec fn in_grid(self) -> bool {
        self.at().within(GRID_LIMIT as int)
    }

    /// Whether every coordinate is within the grid limit.
    pub fn is_in_grid(&self) -> (ok: bool)
        ensures
            ok == self.in_grid(),
    {
        -GRID_LIMIT <= self.x && self.x <= GRID_LIMIT && -GRID_LIMIT <= self.y && self.y
            <= GRID_LIMIT && -GRID_LIMIT <= self.z && self.z <= GRID_LIMIT
    }
}

impl Triangle {
    /// All three vertices are within the grid limit.
    pub open spec fn in_grid(self) -> bool {
        self.v0.in_grid() && self.v1.in_grid() && self.v2.in_grid()
    }

    /// The face normal by the winding of the vertices: the cross product of
    /// the edge from the first vertex to the second with the edge from the
    /// first to the third. Its length is twice the triangle's area.
    pub open spec fn normal(self) -> Vector {
        self.v1.at().minus(self.v0.at()).cross(self.v2.at().minus(self.v0.at()))
    }

    /// Whether all three vertices are within the grid limit.
    pub fn is_in_grid(&self) -> (ok: bool)
        ensures
            ok == self.in_grid(),
    {
        self.v0.is_in_grid() && self.v1.is_in_grid() && self.v2.is_in_grid()
    }

    /// The face normal by the winding of the vertices.
    pub fn face_normal(&self) -> (n: Wide)
        requires
            self.in_grid(),
        ensures
            n@ == self.normal(),
            n@.within(area_limit()),
    {
        let e1 = wide_diff(&self.v1, &self.v0);
        let e2 = wide_diff(&self.v2, &self.v0);
        wide_cross(&e1, &e2)
    }
}

/// A vector whose coordinates fit in 64 bits.
#[derive(Clone, Copy, PartialEq, Eq, Structural, Debug)]
pub struct Wide {
    pub x: i64,
    pub y: i64,
    pub z: i64,
}

impl View for Wide {
    type V = Vector;

    open spec fn view(&self) -> Vector {
        Vector { x: self.x as int, y: self.y as int, z: self.z as int }
    }
}

/// A product is no greater in magnitude than the product of the bounds of
/// its factors.
pub proof fn lemma_mul_bounds(x: int, y: int, bx: int, by: int)
    requires
        -bx <= x <= bx,
        -by <= y <= by,
    ensures
        -(bx * by) <= x * y <= bx * by,
{
    assert(-(bx * by) <= x * y <= bx * by) by (nonlinear_arith)
        requires
            -bx <= x <= bx,
            -by <= y <= by,
    ;
}

/// The difference of two grid points.
pub fn wide_diff(p: &Point, q: &Point) -> (w: Wide)
    requires
        p.in_grid(),
        q.in_grid(),
    ensures
        w@ == p.at().minus(q.at()),
        w@.within(span_limit()),
{
    Wide { x: p.x as i64 - q.x as i64, y: p.y as i64 - q.y as i64, z: p.z as i64 - q.z as i64 }
}

/// The cross product of two differences of grid points.
pub fn wide_cross(a: &Wide, b: &Wide) -> (w: Wide)
    requires
        a@.within(span_limit()),
        b@.within(span_limit()),
    ensures
        w@ == a@.cross(b@),
        w@.within(area_limit()),
{
    proof {
        lemma_mul_bounds(a.y as int, b.z as int, span_limit(), span_limit());
        lemma_mul_bounds(a.z as int, b.y as int, span_limit(), span_limit());
        lemma_mul_bounds(a.z as int, b.x as int, span_limit(), span_limit());
        lemma_mul_bounds(a.x as int, b.z as int, span_limit(), span_limit());
        lemma_mul_bounds(a.x as int, b.y as int, span_limit(), span_limit());
        lemma_mul_bounds(a.y as int, b.x as int, span_limit(), span_limit());
    }
    Wide { x: a.y * b.z - a.z * b.y, y: a.z * b.x - a.x * b.z, z: a.x * b.y - a.y * b.x }
}

/// The dot product of a difference of grid points with a cross product
/// of two.
pub fn wide_dot(a: &Wide, b: &Wide) -> (r: i64)
    requires
        a@.within(span_limit()),
        b@.within(area_limit()),
    ensures
        r == a@.dot(b@),
        -volume_limit() <= r <= volume_limit(),
{
    proof {
        lemma_mul_bounds(a.x as int, b.x as int, span_limit(), area_limit());
        lemma_mul_bounds(a.y as int, b.y as int, span_limit(), area_limit());
        lemma_mul_bounds(a.z as int, b.z as int, span_limit(), area_limit());
    }
    a.x * b.x + a.y * b.y + a.z * b.z
}

/// The cross product of two differences of grid points is within the
/// area limit, and its dot product with a third within the volume limit.
pub proof fn lemma_triple_small(a: Vector, b: Vector, c: Vector)
    requires
        a.within(span_limit()),
        b.within(span_limit()),
        c.within(span_limit()),
    ensures
        b.cross(c).within(area_limit()),
        -volume_limit() <= a.dot(b.cross(c)) <= volume_limit(),
{
    lemma_mul_bounds(b.y, c.z, span_limit(), span_limit());
    lemma_mul_bounds(b.z, c.y, span_limit(), span_limit());
    lemma_mul_bounds(b.z, c.x, span_limit(), span_limit());
    lemma_mul_bounds(b.x, c.z, span_limit(), span_limit());
    lemma_mul_bounds(b.x, c.y, span_limit(), span_limit());
    lemma_mul_bounds(b.y, c.x, span_limit(), span_limit());
    let h = b.cross(c);
    lemma_mul_bounds(a.x, h.x, span_limit(), area_limit());
    lemma_mul_bounds(a.y, h.y, span_limit(), area_limit());
    lemma_mul_bounds(a.z, h.z, span_limit(), area_limit());
}

/// Swapping the first two vectors of a triple product changes its sign.
pub proof fn lemma_triple_swap(a: Vector, d: Vector, b: Vector)
    ensures
        a.dot(d.cross(b)) == -d.dot(a.cross(b)),
{
    assert(a.x * (d.y * b.z - d.z * b.y) == a.x * (d.y * b.z) - a.x * (d.z * b.y))
        by (nonlinear_arith);
    assert(a.y * (d.z * b.x - d.x * b.z) == a.y * (d.z * b.x) - a.y * (d.x * b.z))
        by (nonlinear_arith);
    assert(a.z * (d.x * b.y - d.y * b.x) == a.z * (d.x * b.y) - a.z * (d.y * b.x))
        by (nonlinear_arith);
    assert(d.x * (a.y * b.z - a.z * b.y) == d.x * (a.y * b.z) - d.x * (a.z * b.y))
        by (nonlinear_arith);
    assert(d.y * (a.z * b.x - a.x * b.z) == d.y * (a.z * b.x) - d.y * (a.x * b.z))
        by (nonlinear_arith);
    assert(d.z * (a.x * b.y - a.y * b.x) == d.z * (a.x * b.y) - d.z * (a.y * b.x))
        by (nonlinear_arith);
    assert(a.x * (d.y * b.z) == d.y * (a.x * b.z)) by (nonlinear_arith);
    assert(a.x * (d.z * b.y) == d.z * (a.x * b.y)) by (nonlinear_arith);
    assert(a.y * (d.z * b.x) == d.z * (a.y * b.x)) by (nonlinear_arith);
    assert(a.y * (d.x * b.z) == d.x * (a.y * b.z)) by (nonlinear_arith);
    assert(a.z * (d.x * b.y) == d.x * (a.z * b.y)) by (nonlinear_arith);
    assert(a.z * (d.y * b.x) == d.y * (a.z * b.x)) by (nonlinear_arith);
}

/// A cross product is across both of its vectors.
pub proof fn lemma_cross_is_across(a: Vector, b: Vector)
    ensures
        a.dot(a.cross(b)) == 0,
        b.dot(a.cross(b)) == 0,
{
    assert(a.x * (a.y * b.z - a.z * b.y) == a.x * (a.y * b.z) - a.x * (a.z * b.y))
        by (nonlinear_arith);
    assert(a.y * (a.z * b.x - a.x * b.z) == a.y * (a.z * b.x) - a.y * (a.x * b.z))
        by (nonlinear_arith);
    assert(a.z * (a.x * b.y - a.y * b.x) == a.z * (a.x * b.y) - a.z * (a.y * b.x))
        by (nonlinear_arith);
    assert(a.x * (a.y * b.z) == a.y * (a.x * b.z)) by (nonlinear_arith);
    assert(a.x * (a.z * b.y) == a.z * (a.x * b.y)) by (nonlinear_arith);
    assert(a.y * (a.z * b.x) == a.z * (a.y * b.x)) by (nonlinear_arith);
    assert(b.x * (a.y * b.z - a.z * b.y) == b.x * (a.y * b.z) - b.x * (a.z * b.y))
        by (nonlinear_arith);
    assert(b.y * (a.z * b.x - a.x * b.z) == b.y * (a.z * b.x) - b.y * (a.x * b.z))
        by (nonlinear_arith);
    assert(b.z * (a.x * b.y - a.y * b.x) == b.z * (a.x * b.y) - b.z * (a.y * b.x))
        by (nonlinear_arith);
    assert(b.x * (a.y * b.z) == b.z * (a.y * b.x)) by (nonlinear_arith);
    assert(b.x * (a.z * b.y) == b.y * (a.z * b.x)) by (nonlinear_arith);
    assert(b.y * (a.x * b.z) == b.z * (a.x * b.y)) by (nonlinear_arith);
}

/// A triple product stays the same when its three vectors are moved round
/// in a circle.
pub proof fn lemma_triple_turn(a: Vector, b: Vector, c: Vector)
    ensures
        a.dot(b.cross(c)) == b.dot(c.cross(a)),
{
    assert(a.x * (b.y * c.z - b.z * c.y) == a.x * (b.y * c.z) - a.x * (b.z * c.y))
        by (nonlinear_arith);
    assert(a.y * (b.z * c.x - b.x * c.z) == a.y * (b.z * c.x) - a.y * (b.x * c.z))
        by (nonlinear_arith);
    assert(a.z * (b.x * c.y - b.y * c.x) == a.z * (b.x * c.y) - a.z * (b.y * c.x))
        by (nonlinear_arith);
    assert(b.x * (c.y * a.z - c.z * a.y) == b.x * (c.y * a.z) - b.x * (c.z * a.y))
        by (nonlinear_arith);
    assert(b.y * (c.z * a.x - c.x * a.z) == b.y * (c.z * a.x) - b.y * (c.x * a.z))
        by (nonlinear_arith);
    assert(b.z * (c.x * a.y - c.y * a.x) == b.z * (c.x * a.y) - b.z * (c.y * a.x))
        by (nonlinear_arith);
    assert(a.x * (b.y * c.z) == b.y * (c.z * a.x)) by (nonlinear_arith);
    assert(a.x * (b.z * c.y) == b.z * (c.y * a.x)) by (nonlinear_arith);
    assert(a.y * (b.z * c.x) == b.z * (c.x * a.y)) by (nonlinear_arith);
    assert(a.y * (b.x * c.z) == b.x * (c.z * a.y)) by (nonlinear_arith);
    assert(a.z * (b.x * c.y) == b.x * (c.y * a.z)) by (nonlinear_arith);
    assert(a.z * (b.y * c.x) == b.y * (c.x * a.z)) by (nonlinear_arith);
}

/// The dot product of a vector with a sum of two vectors, each taken a
/// number of times.
pub proof fn lemma_dot_of_sum(k: Vector, p: int, a: Vector, q: int, b: Vector)
    ensures
        (p * a.x + q * b.x) * k.x + (p * a.y + q * b.y) * k.y + (p * a.z + q * b.z) * k.z == p
            * a.dot(k) + q * b.dot(k),
{
    assert((p * a.x + q * b.x) * k.x == p * (a.x * k.x) + q * (b.x * k.x)) by (nonlinear_arith);
    assert((p * a.y + q * b.y) * k.y == p * (a.y * k.y) + q * (b.y * k.y)) by (nonlinear_arith);
    assert((p * a.z + q * b.z) * k.z == p * (a.z * k.z) + q * (b.z * k.z)) by (nonlinear_arith);
    assert(p * a.dot(k) == p * (a.x * k.x) + p * (a.y * k.y) + p * (a.z * k.z))
        by (nonlinear_arith)
        requires
            a.dot(k) == a.x * k.x + a.y * k.y + a.z * k.z,
    ;
    assert(q * b.dot(k) == q * (b.x * k.x) + q * (b.y * k.y) + q * (b.z * k.z))
        by (nonlinear_arith)
        requires
            b.dot(k) == b.x * k.x + b.y * k.y + b.z * k.z,
    ;
}

/// For two vectors, the square of their dot product is no greater than
/// the product of their squared lengths.
#[verifier::rlimit(40)]
pub proof fn lemma_dot_squared(v: Vector, n: Vector)
    ensures
        v.dot(n) * v.dot(n) <= v.dot(v) * n.dot(n),
{
    let (a, b, c) = (v.x, v.y, v.z);
    let (x, y, z) = (n.x, n.y, n.z);
    let (aa, bb, cc) = (a * a, b * b, c * c);
    let (xx, yy, zz) = (x * x, y * y, z * z);
    let (p, q, r) = (a * x, b * y, c * z);
    // the product of the squared lengths, term by term
    let t = xx + yy + zz;
    assert((aa + bb + cc) * t == aa * t + bb * t + cc * t) by (nonlinear_arith);
    assert(aa * t == aa * xx + aa * yy + aa * zz) by (nonlinear_arith)
        requires
            t == xx + yy + zz,
    ;
    assert(bb * t == bb * xx + bb * yy + bb * zz) by (nonlinear_arith)
        requires
            t == xx + yy + zz,
    ;
    assert(cc * t == cc * xx + cc * yy + cc * zz) by (nonlinear_arith)
        requires
            t == xx + yy + zz,
    ;
    // the square of the dot product, term by term
    let u = p + q + r;
    assert(u * u == p * u + q * u + r * u) by (nonlinear_arith)
        requires
            u == p + q + r,
    ;
    assert(p * u == p * p + p * q + p * r) by (nonlinear_arith)
        requires
            u == p + q + r,
    ;
    assert(q * u == p * q + q * q + q * r) by (nonlinear_arith)
        requires
            u == p + q + r,
    ;
    assert(r * u == p * r + q * r + r * r) by (nonlinear_arith)
        requires
            u == p + q + r,
    ;
    assert(p * p == aa * xx) by (nonlinear_arith)
        requires
            p == a * x,
            aa == a * a,
            xx == x * x,
    ;
    assert(q * q == bb * yy) by (nonlinear_arith)
        requires
            q == b * y,
            bb == b * b,
            yy == y * y,
    ;
    assert(r * r == cc * zz) by (nonlinear_arith)
        requires
            r == c * z,
            cc == c * c,
            zz == z * z,
    ;
    // what is left over is a sum of three squares
    let (k1, k2, k3) = (a * y - b * x, a * z - c * x, b * z - c * y);
    assert(k1 * k1 == aa * yy - 2 * (p * q) + bb * xx) by {
        assert(k1 * k1 == (a * y) * (a * y) - 2 * ((a * y) * (b * x)) + (b * x) * (b * x))
            by (nonlinear_arith)
            requires
                k1 == a * y - b * x,
        ;
        assert((a * y) * (a * y) == (a * a) * (y * y)) by (nonlinear_arith);
        assert((b * x) * (b * x) == (b * b) * (x * x)) by (nonlinear_arith);
        assert((a * y) * (b * x) == (a * x) * (b * y)) by (nonlinear_arith);
    }
    assert(k2 * k2 == aa * zz - 2 * (p * r) + cc * xx) by {
        assert(k2 * k2 == (a * z) * (a * z) - 2 * ((a * z) * (c * x)) + (c * x) * (c * x))
            by (nonlinear_arith)
            requires
                k2 == a * z - c * x,
        ;
        assert((a * z) * (a * z) == (a * a) * (z * z)) by (nonlinear_arith);
        assert((c * x) * (c * x) == (c * c) * (x * x)) by (nonlinear_arith);
        assert((a * z) * (c * x) == (a * x) * (c * z)) by (nonlinear_arith);
    }
    assert(k3 * k3 == bb * zz - 2 * (q * r) + cc * yy) by {
        assert(k3 * k3 == (b * z) * (b * z) - 2 * ((b * z) * (c * y)) + (c * y) * (c * y))
            by (nonlinear_arith)
            requires
                k3 == b * z - c * y,
        ;
        assert((b * z) * (b * z) == (b * b) * (z * z)) by (nonlinear_arith);
        assert((c * y) * (c * y) == (c * c) * (y * y)) by (nonlinear_arith);
        assert((b * z) * (c * y) == (b * y) * (c * z)) by (nonlinear_arith);
    }
    assert(k1 * k1 >= 0 && k2 * k2 >= 0 && k3 * k3 >= 0) by (nonlinear_arith);
    assert(v.dot(v) * n.dot(n) - v.dot(n) * v.dot(n) == k1 * k1 + k2 * k2 + k3 * k3);
}

/// `n / d` rounded toward zero.
pub open spec fn toward_zero(n: int, d: int) -> int {
    if n >= 0 {
        n / d
    } else {
        -((-n) / d)
    }
}

/// A part of a whole that is not negative is neither negative nor more
/// than the whole.
pub proof fn lemma_part_of(d: int, num: int, den: int)
    requires
        0 <= d,
        0 <= num <= den,
        0 < den,
    ensures
        0 <= (d * num) / den <= d,
{
    assert(d * num >= 0) by (nonlinear_arith)
        requires
            0 <= d,
            0 <= num,
    ;
    assert(d * num <= d * den) by (nonlinear_arith)
        requires
            0 <= d,
            num <= den,
    ;
    vstd::arithmetic::div_mod::lemma_div_is_ordered(d * num, d * den, den);
    vstd::arithmetic::div_mod::lemma_div_multiples_vanish(d, den);
    vstd::arithmetic::div_mod::lemma_div_pos_is_pos(d * num, den);
    assert(d * den == den * d) by (nonlinear_arith);
}

/// `n / d` rounded toward zero is no greater in magnitude than `bound`
/// where `n` is no greater in magnitude than `bound * d`.
pub proof fn lemma_toward_zero_bound(n: int, d: int, bound: int)
    requires
        d > 0,
        bound >= 0,
        -(bound * d) <= n <= bound * d,
    ensures
        -bound <= toward_zero(n, d) <= bound,
{
    assert(bound * d == d * bound) by (nonlinear_arith);
    if n >= 0 {
        vstd::arithmetic::div_mod::lemma_div_is_ordered(n, bound * d, d);
        vstd::arithmetic::div_mod::lemma_div_multiples_vanish(bound, d);
        vstd::arithmetic::div_mod::lemma_div_pos_is_pos(n, d);
    } else {
        vstd::arithmetic::div_mod::lemma_div_is_ordered(-n, bound * d, d);
        vstd::arithmetic::div_mod::lemma_div_multiples_vanish(bound, d);
        vstd::arithmetic::div_mod::lemma_div_pos_is_pos(-n, d);
    }
}

/// A number within a bound has a square within the bound's square.
pub proof fn lemma_root_square(t: int, bound: int)
    requires
        -bound <= t <= bound,
    ensures
        t * t <= bound * bound,
{
    assert(t * t <= bound * bound) by (nonlinear_arith)
        requires
            -bound <= t <= bound,
    ;
}

/// A number whose square is no greater than the square of a bound is no
/// greater in magnitude than the bound.
pub proof fn lemma_root_bound(t: int, bound: int)
    requires
        bound >= 0,
        t * t <= bound * bound,
    ensures
        -bound <= t <= bound,
{
    if t > bound {
        assert(t * t > bound * bound) by (nonlinear_arith)
            requires
                t > bound,
                bound >= 0,
        ;
    } else if t < -bound {
        assert(t * t > bound * bound) by (nonlinear_arith)
            requires
                t < -bound,
                bound >= 0,
        ;
    }
}

/// `r` is the greatest whole number whose square is not greater than `n`.
pub open spec fn is_root(r: int, n: int) -> bool {
    &&& 0 <= r
    &&& r * r <= n
    &&& n < (r + 1) * (r + 1)
}

/// The square root of `n`, rounded down.
pub open spec fn floor_root(n: int) -> int {
    choose|r: int| is_root(r, n)
}

/// A number has one rounded-down square root only.
pub proof fn lemma_root_is_unique(r: int, n: int)
    requires
        is_root(r, n),
    ensures
        floor_root(n) == r,
{
    let other = floor_root(n);
    assert(is_root(other, n));
    if other < r {
        assert((other + 1) * (other + 1) <= r * r) by (nonlinear_arith)
            requires
                0 <= other,
                other + 1 <= r,
        ;
    } else if other > r {
        assert((r + 1) * (r + 1) <= other * other) by (nonlinear_arith)
            requires
                0 <= r,
                r + 1 <= other,
        ;
    }
}

/// The greatest magnitude that `isqrt` takes the root of.
pub const ROOT_LIMIT: u128 = 0x4000_0000_0000_0000_0000_0000_0000_0000;

/// The square root of `n`, rounded down.
pub fn isqrt(n: u128) -> (r: u64)
    requires
        n < ROOT_LIMIT,
    ensures
        r == floor_root(n as int),
        is_root(r as int, n as int),
{
    let mut lo: u64 = 0;
    let mut hi: u64 = 0x8000_0000_0000_0000;
    assert(0x8000_0000_0000_0000int * 0x8000_0000_0000_0000int == ROOT_LIMIT) by (nonlinear_arith);
    while hi - lo > 1
        invariant
            lo < hi <= 0x8000_0000_0000_0000,
            lo * lo <= n,
            n < hi * hi,
        decreases hi - lo,
    {
        let mid: u64 = lo + (hi - lo) / 2;
        assert(mid * mid < 0x8000_0000_0000_0000int * 0x8000_0000_0000_0000int)
            by (nonlinear_arith)
            requires
                0 <= mid < 0x8000_0000_0000_0000int,
        ;
        if (mid as u128) * (mid as u128) <= n {
            lo = mid;
        } else {
            hi = mid;
        }
    }
    proof {
        lemma_root_is_unique(lo as int, n as int);
    }
    lo
}

/// No coordinate of a vector is greater in magnitude than the vector's
/// length rounded down.
pub proof fn lemma_coord_within_root(c: int, rest: int, l: int)
    requires
        rest >= 0,
        is_root(l, c * c + rest),
    ensures
        -l <= c <= l,
{
    if c > l {
        assert(c * c >= (l + 1) * (l + 1)) by (nonlinear_arith)
            requires
                c >= l + 1,
                l >= 0,
        ;
    } else if c < -l {
        assert(c * c >= (l + 1) * (l + 1)) by (nonlinear_arith)
            requires
                c <= -(l + 1),
                l >= 0,
        ;
    }
}

/// The vector along `v` of the given length, each coordinate rounded
/// toward zero; the length of `v` itself is rounded down first.
pub open spec fn scaled_to(v: Vector, length: int) -> Vector {
    let l = floor_root(v.dot(v));
    Vector {
        x: toward_zero(length * v.x, l),
        y: toward_zero(length * v.y, l),
        z: toward_zero(length * v.z, l),
    }
}

/// A short vector on the grid.
#[derive(Clone, Copy, PartialEq, Eq, Structural, Debug)]
pub struct Shift {
    pub x: i32,
    pub y: i32,
    pub z: i32,
}

impl View for Shift {
    type V = Vector;

    open spec fn view(&self) -> Vector {
        Vector { x: self.x as int, y: self.y as int, z: self.z as int }
    }
}

/// `length * c / l` rounded toward zero.
fn scale_coord(c: i64, length: u32, l: u64) -> (out: i32)
    requires
        l > 0,
        -(l as int) <= c <= l,
        l <= 0x1_0000_0000_0000,
        length <= GRID_LIMIT,
    ensures
        out == toward_zero(length * c, l as int),
        -(length as int) <= out <= length,
{
    let len = length as i128;
    if c >= 0 {
        proof {
            lemma_mul_bounds(length as int, c as int, GRID_LIMIT as int, 0x1_0000_0000_0000);
            lemma_part_of(length as int, c as int, l as int);
        }
        ((len * (c as i128)) / (l as i128)) as i32
    } else {
        proof {
            lemma_mul_bounds(length as int, -c as int, GRID_LIMIT as int, 0x1_0000_0000_0000);
            lemma_part_of(length as int, -c as int, l as int);
            assert(length * (-c) == -(length * c)) by (nonlinear_arith);
        }
        (-((len * (-(c as i128))) / (l as i128))) as i32
    }
}

/// The greatest magnitude of a coordinate of a vector that `scale_to`
/// takes.
pub open spec fn scale_limit() -> int {
    0x400_0000_0000
}

/// The vector along `v` of the given length.
#[verifier::rlimit(40)]
pub fn scale_to(v: &Wide, length: u32) -> (out: Shift)
    requires
        v@.within(scale_limit()),
        v.x != 0 || v.y != 0 || v.z != 0,
        length <= GRID_LIMIT,
    ensures
        out@ == scaled_to(v@, length as int),
        out@.within(length as int),
{
    let (x, y, z) = (v.x, v.y, v.z);
    proof {
        lemma_mul_bounds(x as int, x as int, scale_limit(), scale_limit());
        lemma_mul_bounds(y as int, y as int, scale_limit(), scale_limit());
        lemma_mul_bounds(z as int, z as int, scale_limit(), scale_limit());
        assert(x * x >= 0 && y * y >= 0 && z * z >= 0) by (nonlinear_arith);
        assert(x * x + y * y + z * z >= 1) by (nonlinear_arith)
            requires
                x != 0 || y != 0 || z != 0,
        ;
    }
    let (xw, yw, zw) = (x as i128, y as i128, z as i128);
    let sq: u128 = (xw * xw + yw * yw + zw * zw) as u128;
    let l = isqrt(sq);
    proof {
        let li = l as int;
        assert(li >= 1) by (nonlinear_arith)
            requires
                li >= 0,
                (li + 1) * (li + 1) > 1,
        ;
        assert(li <= 0x1_0000_0000_0000) by (nonlinear_arith)
            requires
                li >= 0,
                li * li <= 3 * 0x400_0000_0000 * 0x400_0000_0000,
        ;
        lemma_coord_within_root(x as int, y * y + z * z, li);
        lemma_coord_within_root(y as int, x * x + z * z, li);
        lemma_coord_within_root(z as int, x * x + y * y, li);
    }
    Shift { x: scale_coord(x, length, l), y: scale_coord(y, length, l), z: scale_coord(z, length, l) }
}

} // verus!
