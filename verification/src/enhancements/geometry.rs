//! Points, boxes and triangles on an integer grid.
//!
//! Coordinates are whole numbers of a fixed-point unit that the caller picks;
//! every comparison and every bound below is exact in that unit.

use vstd::prelude::*;

verus! {

/// The lesser of two coordinates.
pub open spec fn lesser(a: i32, b: i32) -> i32 {
    if a <= b {
        a
    } else {
        b
    }
}

/// The greater of two coordinates.
pub open spec fn greater(a: i32, b: i32) -> i32 {
    if a >= b {
        a
    } else {
        b
    }
}

/// A third of `s`, rounded toward zero.
pub open spec fn third(s: int) -> int {
    if s >= 0 {
        s / 3
    } else {
        -((-s) / 3)
    }
}

/// A position in the world.
#[derive(Clone, Copy, PartialEq, Eq, Structural, Debug)]
pub struct Point {
    pub x: i32,
    pub y: i32,
    pub z: i32,
}

impl Point {
    /// The coordinate on an axis: 0 is x, 1 is y, anything else is z.
    pub open spec fn coord(self, axis: int) -> i32 {
        if axis == 0 {
            self.x
        } else if axis == 1 {
            self.y
        } else {
            self.z
        }
    }

    /// The point with the given coordinates.
    pub fn new(x: i32, y: i32, z: i32) -> (p: Point)
        ensures
            p == (Point { x, y, z }),
    {
        Point { x, y, z }
    }

    /// The coordinate on an axis: 0 is x, 1 is y, anything else is z.
    pub fn get(&self, axis: u8) -> (c: i32)
        ensures
            c == self.coord(axis as int),
    {
        if axis == 0 {
            self.x
        } else if axis == 1 {
            self.y
        } else {
            self.z
        }
    }
}

fn min_i32(a: i32, b: i32) -> (m: i32)
    ensures
        m == lesser(a, b),
{
    if a <= b {
        a
    } else {
        b
    }
}

fn max_i32(a: i32, b: i32) -> (m: i32)
    ensures
        m == greater(a, b),
{
    if a >= b {
        a
    } else {
        b
    }
}

/// An axis-aligned box given by its least and greatest corner.
///
/// The empty box has the greatest representable value in every coordinate
/// of `min` and the least in every coordinate of `max`, so that expanding
/// it by a point yields the box of that point alone.
#[derive(Clone, Copy, PartialEq, Eq, Structural, Debug)]
pub struct Aabb {
    pub min: Point,
    pub max: Point,
}

impl Aabb {
    /// The box that holds nothing.
    pub open spec fn empty() -> Aabb {
        Aabb {
            min: Point { x: i32::MAX, y: i32::MAX, z: i32::MAX },
            max: Point { x: i32::MIN, y: i32::MIN, z: i32::MIN },
        }
    }

    /// The box reaches from `min` to `max` on every axis.
    pub open spec fn is_proper(self) -> bool {
        &&& self.min.x <= self.max.x
        &&& self.min.y <= self.max.y
        &&& self.min.z <= self.max.z
    }

    /// The point lies in the box or on its border.
    pub open spec fn contains_point(self, p: Point) -> bool {
        &&& self.min.x <= p.x <= self.max.x
        &&& self.min.y <= p.y <= self.max.y
        &&& self.min.z <= p.z <= self.max.z
    }

    /// The other box lies within this one.
    pub open spec fn contains_box(self, other: Aabb) -> bool {
        &&& self.min.x <= other.min.x && other.max.x <= self.max.x
        &&& self.min.y <= other.min.y && other.max.y <= self.max.y
        &&& self.min.z <= other.min.z && other.max.z <= self.max.z
    }

    /// All three vertices of the triangle lie in the box or on its border.
    pub open spec fn contains_triangle(self, t: Triangle) -> bool {
        &&& self.contains_point(t.v0)
        &&& self.contains_point(t.v1)
        &&& self.contains_point(t.v2)
    }

    /// The box after it was grown to hold `p`.
    pub open spec fn expanded(self, p: Point) -> Aabb {
        Aabb {
            min: Point {
                x: lesser(self.min.x, p.x),
                y: lesser(self.min.y, p.y),
                z: lesser(self.min.z, p.z),
            },
            max: Point {
                x: greater(self.max.x, p.x),
                y: greater(self.max.y, p.y),
                z: greater(self.max.z, p.z),
            },
        }
    }

    /// The smallest box that holds both boxes.
    pub open spec fn joined(self, other: Aabb) -> Aabb {
        Aabb {
            min: Point {
                x: lesser(self.min.x, other.min.x),
                y: lesser(self.min.y, other.min.y),
                z: lesser(self.min.z, other.min.z),
            },
            max: Point {
                x: greater(self.max.x, other.max.x),
                y: greater(self.max.y, other.max.y),
                z: greater(self.max.z, other.max.z),
            },
        }
    }

    /// The extent of the box along an axis.
    pub open spec fn extent(self, axis: int) -> int {
        self.max.coord(axis) - self.min.coord(axis)
    }

    /// The axis along which the box reaches farthest; of two axes with the
    /// same extent the earlier one.
    pub open spec fn widest_axis(self) -> int {
        if self.extent(0) >= self.extent(1) && self.extent(0) >= self.extent(2) {
            0
        } else if self.extent(1) >= self.extent(2) {
            1
        } else {
            2
        }
    }

    /// The empty box.
    pub fn new() -> (b: Aabb)
        ensures
            b == Aabb::empty(),
    {
        Aabb {
            min: Point { x: i32::MAX, y: i32::MAX, z: i32::MAX },
            max: Point { x: i32::MIN, y: i32::MIN, z: i32::MIN },
        }
    }

    /// Grows the box so that it holds `p`.
    pub fn expand(&mut self, p: &Point)
        ensures
            *final(self) == old(self).expanded(*p),
            final(self).contains_point(*p),
            old(self).is_proper() ==> final(self).contains_box(*old(self)),
    {
        self.min.x = min_i32(self.min.x, p.x);
        self.min.y = min_i32(self.min.y, p.y);
        self.min.z = min_i32(self.min.z, p.z);
        self.max.x = max_i32(self.max.x, p.x);
        self.max.y = max_i32(self.max.y, p.y);
        self.max.z = max_i32(self.max.z, p.z);
    }

    /// The smallest box that holds both boxes.
    pub fn union(&self, other: &Aabb) -> (u: Aabb)
        ensures
            u == self.joined(*other),
            self.is_proper() ==> u.contains_box(*self),
            other.is_proper() ==> u.contains_box(*other),
    {
        Aabb {
            min: Point {
                x: min_i32(self.min.x, other.min.x),
                y: min_i32(self.min.y, other.min.y),
                z: min_i32(self.min.z, other.min.z),
            },
            max: Point {
                x: max_i32(self.max.x, other.max.x),
                y: max_i32(self.max.y, other.max.y),
                z: max_i32(self.max.z, other.max.z),
            },
        }
    }

    /// The axis to split along: the one of greatest extent, the earlier of
    /// two that tie.
    pub fn split_axis(&self) -> (axis: u8)
        ensures
            axis as int == self.widest_axis(),
            axis < 3,
    {
        let ex: i64 = self.max.x as i64 - self.min.x as i64;
        let ey: i64 = self.max.y as i64 - self.min.y as i64;
        let ez: i64 = self.max.z as i64 - self.min.z as i64;
        if ex >= ey && ex >= ez {
            0
        } else if ey >= ez {
            1
        } else {
            2
        }
    }
}

/// A triangle of the level geometry.
///
/// `center` is the point that the hierarchy sorts by; `Triangle::new` sets
/// it to the centroid. `source` is the caller's own number for the
/// triangle, carried along unchanged.
#[derive(Clone, Copy, PartialEq, Eq, Structural, Debug)]
pub struct Triangle {
    pub v0: Point,
    pub v1: Point,
    pub v2: Point,
    pub center: Point,
    pub source: u32,
}

/// The centroid of three points, each coordinate rounded toward zero.
pub open spec fn centroid(v0: Point, v1: Point, v2: Point) -> Point {
    Point {
        x: third(v0.x + v1.x + v2.x) as i32,
        y: third(v0.y + v1.y + v2.y) as i32,
        z: third(v0.z + v1.z + v2.z) as i32,
    }
}

/// A third of the sum of three coordinates, rounded toward zero.
fn third_of_sum(a: i32, b: i32, c: i32) -> (t: i32)
    ensures
        t == third(a + b + c),
        lesser(a, lesser(b, c)) <= t <= greater(a, greater(b, c)),
{
    let s: i64 = a as i64 + b as i64 + c as i64;
    if s >= 0 {
        (s / 3) as i32
    } else {
        (-((-s) / 3)) as i32
    }
}

impl Triangle {
    /// The least coordinate of the three vertices on an axis.
    pub open spec fn low(self, axis: int) -> i32 {
        lesser(self.v0.coord(axis), lesser(self.v1.coord(axis), self.v2.coord(axis)))
    }

    /// The greatest coordinate of the three vertices on an axis.
    pub open spec fn high(self, axis: int) -> i32 {
        greater(self.v0.coord(axis), greater(self.v1.coord(axis), self.v2.coord(axis)))
    }

    /// The number by which the hierarchy orders triangles along an axis.
    pub open spec fn key(self, axis: int) -> i32 {
        self.center.coord(axis)
    }

    /// The box of the three vertices.
    pub open spec fn bounds(self) -> Aabb {
        Aabb {
            min: Point {
                x: self.low(0),
                y: self.low(1),
                z: self.low(2),
            },
            max: Point {
                x: self.high(0),
                y: self.high(1),
                z: self.high(2),
            },
        }
    }

    /// The triangle with the given corners; its centre is their centroid.
    pub fn new(v0: Point, v1: Point, v2: Point, source: u32) -> (t: Triangle)
        ensures
            t == (Triangle { v0, v1, v2, center: centroid(v0, v1, v2), source }),
            t.bounds().contains_point(t.center),
    {
        let center = Point {
            x: third_of_sum(v0.x, v1.x, v2.x),
            y: third_of_sum(v0.y, v1.y, v2.y),
            z: third_of_sum(v0.z, v1.z, v2.z),
        };
        Triangle { v0, v1, v2, center, source }
    }

    /// The number by which the hierarchy orders this triangle along an axis.
    pub fn center_on(&self, axis: u8) -> (k: i32)
        ensures
            k == self.key(axis as int),
    {
        self.center.get(axis)
    }
}

/// The least vertex coordinate on an axis among `tris[lo..hi]`; the greatest
/// representable value where the run is empty.
pub open spec fn range_low(tris: Seq<Triangle>, lo: int, hi: int, axis: int) -> i32
    decreases hi - lo,
{
    if hi <= lo {
        i32::MAX
    } else {
        lesser(range_low(tris, lo, hi - 1, axis), tris[hi - 1].low(axis))
    }
}

/// The greatest vertex coordinate on an axis among `tris[lo..hi]`; the least
/// representable value where the run is empty.
pub open spec fn range_high(tris: Seq<Triangle>, lo: int, hi: int, axis: int) -> i32
    decreases hi - lo,
{
    if hi <= lo {
        i32::MIN
    } else {
        greater(range_high(tris, lo, hi - 1, axis), tris[hi - 1].high(axis))
    }
}

/// The exact box of the vertices of `tris[lo..hi]`.
pub open spec fn bounds_of(tris: Seq<Triangle>, lo: int, hi: int) -> Aabb {
    Aabb {
        min: Point {
            x: range_low(tris, lo, hi, 0),
            y: range_low(tris, lo, hi, 1),
            z: range_low(tris, lo, hi, 2),
        },
        max: Point {
            x: range_high(tris, lo, hi, 0),
            y: range_high(tris, lo, hi, 1),
            z: range_high(tris, lo, hi, 2),
        },
    }
}

/// No triangle of a run reaches outside the run's bounds.
pub proof fn lemma_range_bounds_all(tris: Seq<Triangle>, lo: int, hi: int, axis: int, k: int)
    requires
        0 <= lo <= k < hi <= tris.len(),
    ensures
        range_low(tris, lo, hi, axis) <= tris[k].low(axis),
        tris[k].high(axis) <= range_high(tris, lo, hi, axis),
    decreases hi - lo,
{
    if k < hi - 1 {
        lemma_range_bounds_all(tris, lo, hi - 1, axis, k);
    }
}

/// The least coordinate of a run that is not empty is that of one of its
/// triangles.
pub proof fn lemma_range_low_attained(tris: Seq<Triangle>, lo: int, hi: int, axis: int) -> (k: int)
    requires
        0 <= lo < hi <= tris.len(),
    ensures
        lo <= k < hi,
        range_low(tris, lo, hi, axis) == tris[k].low(axis),
    decreases hi - lo,
{
    if hi - 1 == lo {
        assert(range_low(tris, lo, lo, axis) == i32::MAX);
        lo
    } else {
        let j = lemma_range_low_attained(tris, lo, hi - 1, axis);
        if range_low(tris, lo, hi - 1, axis) <= tris[hi - 1].low(axis) {
            j
        } else {
            hi - 1
        }
    }
}

/// The greatest coordinate of a run that is not empty is that of one of its
/// triangles.
pub proof fn lemma_range_high_attained(tris: Seq<Triangle>, lo: int, hi: int, axis: int) -> (k:
    int)
    requires
        0 <= lo < hi <= tris.len(),
    ensures
        lo <= k < hi,
        range_high(tris, lo, hi, axis) == tris[k].high(axis),
    decreases hi - lo,
{
    if hi - 1 == lo {
        assert(range_high(tris, lo, lo, axis) == i32::MIN);
        lo
    } else {
        let j = lemma_range_high_attained(tris, lo, hi - 1, axis);
        if range_high(tris, lo, hi - 1, axis) >= tris[hi - 1].high(axis) {
            j
        } else {
            hi - 1
        }
    }
}

/// `x` is one of `tris[lo..hi]`.
pub open spec fn occurs_in(tris: Seq<Triangle>, lo: int, hi: int, x: Triangle) -> bool {
    exists|j: int| lo <= j < hi && tris[j] == x
}

/// Two runs with the same triangles, in whatever order, have each triangle
/// of the one somewhere in the other.
pub proof fn lemma_same_members(a: Seq<Triangle>, b: Seq<Triangle>, lo: int, hi: int)
    requires
        0 <= lo <= hi <= a.len(),
        hi <= b.len(),
        a.subrange(lo, hi).to_multiset() == b.subrange(lo, hi).to_multiset(),
    ensures
        forall|i: int| lo <= i < hi ==> occurs_in(a, lo, hi, #[trigger] b[i]),
        forall|i: int| lo <= i < hi ==> occurs_in(b, lo, hi, #[trigger] a[i]),
{
    broadcast use vstd::seq_lib::group_to_multiset_ensures;

    let sa = a.subrange(lo, hi);
    let sb = b.subrange(lo, hi);
    assert forall|i: int| lo <= i < hi implies occurs_in(a, lo, hi, #[trigger] b[i]) by {
        let x = b[i];
        assert(sb[i - lo] == x);
        assert(sb.contains(x));
        assert(sb.to_multiset().count(x) > 0);
        assert(sa.contains(x));
        let w = choose|w: int| 0 <= w < sa.len() && sa[w] == x;
        assert(a[lo + w] == x);
    }
    assert forall|i: int| lo <= i < hi implies occurs_in(b, lo, hi, #[trigger] a[i]) by {
        let x = a[i];
        assert(sa[i - lo] == x);
        assert(sa.contains(x));
        assert(sa.to_multiset().count(x) > 0);
        assert(sb.contains(x));
        let w = choose|w: int| 0 <= w < sb.len() && sb[w] == x;
        assert(b[lo + w] == x);
    }
}

/// A run whose triangles all occur in another reaches no farther than
/// that one.
proof fn lemma_range_low_le(a: Seq<Triangle>, b: Seq<Triangle>, lo: int, hi: int, axis: int)
    requires
        0 <= lo < hi <= a.len(),
        hi <= b.len(),
        forall|i: int| lo <= i < hi ==> occurs_in(a, lo, hi, #[trigger] b[i]),
    ensures
        range_low(a, lo, hi, axis) <= range_low(b, lo, hi, axis),
        range_high(b, lo, hi, axis) <= range_high(a, lo, hi, axis),
{
    let k = lemma_range_low_attained(b, lo, hi, axis);
    assert(occurs_in(a, lo, hi, b[k]));
    let j = choose|j: int| lo <= j < hi && a[j] == b[k];
    lemma_range_bounds_all(a, lo, hi, axis, j);
    let k2 = lemma_range_high_attained(b, lo, hi, axis);
    assert(occurs_in(a, lo, hi, b[k2]));
    let j2 = choose|j: int| lo <= j < hi && a[j] == b[k2];
    lemma_range_bounds_all(a, lo, hi, axis, j2);
}

/// The bounds of a run do not depend on the order of its triangles.
pub proof fn lemma_bounds_of_permutation(a: Seq<Triangle>, b: Seq<Triangle>, lo: int, hi: int)
    requires
        0 <= lo <= hi <= a.len(),
        hi <= b.len(),
        a.subrange(lo, hi).to_multiset() == b.subrange(lo, hi).to_multiset(),
    ensures
        bounds_of(a, lo, hi) == bounds_of(b, lo, hi),
{
    if lo < hi {
        lemma_same_members(a, b, lo, hi);
        lemma_range_low_le(a, b, lo, hi, 0);
        lemma_range_low_le(a, b, lo, hi, 1);
        lemma_range_low_le(a, b, lo, hi, 2);
        lemma_range_low_le(b, a, lo, hi, 0);
        lemma_range_low_le(b, a, lo, hi, 1);
        lemma_range_low_le(b, a, lo, hi, 2);
    }
}

/// The bounds of a run depend on the triangles of that run alone.
pub proof fn lemma_bounds_of_frame(a: Seq<Triangle>, b: Seq<Triangle>, lo: int, hi: int)
    requires
        0 <= lo,
        hi <= a.len(),
        hi <= b.len(),
        forall|k: int| lo <= k < hi ==> a[k] == b[k],
    ensures
        bounds_of(a, lo, hi) == bounds_of(b, lo, hi),
{
    lemma_range_frame(a, b, lo, hi, 0);
    lemma_range_frame(a, b, lo, hi, 1);
    lemma_range_frame(a, b, lo, hi, 2);
}

/// The least and the greatest coordinate of a run depend on the triangles
/// of that run alone.
proof fn lemma_range_frame(a: Seq<Triangle>, b: Seq<Triangle>, lo: int, hi: int, axis: int)
    requires
        0 <= lo,
        hi <= a.len(),
        hi <= b.len(),
        forall|k: int| lo <= k < hi ==> a[k] == b[k],
    ensures
        range_low(a, lo, hi, axis) == range_low(b, lo, hi, axis),
        range_high(a, lo, hi, axis) == range_high(b, lo, hi, axis),
    decreases hi - lo,
{
    if hi > lo {
        lemma_range_frame(a, b, lo, hi - 1, axis);
    }
}

/// The bounds of a run hold every triangle of the run.
pub proof fn lemma_bounds_hold_triangle(tris: Seq<Triangle>, lo: int, hi: int, k: int)
    requires
        0 <= lo <= k < hi <= tris.len(),
    ensures
        bounds_of(tris, lo, hi).contains_triangle(tris[k]),
        bounds_of(tris, lo, hi).is_proper(),
{
    lemma_range_bounds_all(tris, lo, hi, 0, k);
    lemma_range_bounds_all(tris, lo, hi, 1, k);
    lemma_range_bounds_all(tris, lo, hi, 2, k);
}

/// The bounds of a run hold the bounds of every run inside it.
pub proof fn lemma_bounds_hold_part(tris: Seq<Triangle>, lo: int, hi: int, from: int, to: int)
    requires
        0 <= lo <= from < to <= hi <= tris.len(),
    ensures
        bounds_of(tris, lo, hi).contains_box(bounds_of(tris, from, to)),
{
    lemma_part_axis(tris, lo, hi, from, to, 0);
    lemma_part_axis(tris, lo, hi, from, to, 1);
    lemma_part_axis(tris, lo, hi, from, to, 2);
}

/// Along each axis a run reaches at least as far as every run inside it.
proof fn lemma_part_axis(tris: Seq<Triangle>, lo: int, hi: int, from: int, to: int, axis: int)
    requires
        0 <= lo <= from < to <= hi <= tris.len(),
    ensures
        range_low(tris, lo, hi, axis) <= range_low(tris, from, to, axis),
        range_high(tris, from, to, axis) <= range_high(tris, lo, hi, axis),
{
    let k = lemma_range_low_attained(tris, from, to, axis);
    lemma_range_bounds_all(tris, lo, hi, axis, k);
    let k2 = lemma_range_high_attained(tris, from, to, axis);
    lemma_range_bounds_all(tris, lo, hi, axis, k2);
}

/// The bounds of a single triangle are the box of its three vertices.
pub proof fn lemma_bounds_of_one(tris: Seq<Triangle>, k: int)
    requires
        0 <= k < tris.len(),
    ensures
        bounds_of(tris, k, k + 1) == tris[k].bounds(),
{
    assert(range_low(tris, k, k, 0) == i32::MAX);
    assert(range_low(tris, k, k, 1) == i32::MAX);
    assert(range_low(tris, k, k, 2) == i32::MAX);
    assert(range_high(tris, k, k, 0) == i32::MIN);
    assert(range_high(tris, k, k, 1) == i32::MIN);
    assert(range_high(tris, k, k, 2) == i32::MIN);
}

/// Taking one more triangle into a run grows its bounds by the three
/// vertices of that triangle.
pub proof fn lemma_bounds_of_step(tris: Seq<Triangle>, lo: int, k: int)
    requires
        0 <= lo <= k < tris.len(),
    ensures
        bounds_of(tris, lo, k + 1) == bounds_of(tris, lo, k).expanded(tris[k].v0).expanded(
            tris[k].v1,
        ).expanded(tris[k].v2),
{
    let t = tris[k];
    assert(range_low(tris, lo, k + 1, 0) == lesser(range_low(tris, lo, k, 0), t.low(0)));
    assert(range_low(tris, lo, k + 1, 1) == lesser(range_low(tris, lo, k, 1), t.low(1)));
    assert(range_low(tris, lo, k + 1, 2) == lesser(range_low(tris, lo, k, 2), t.low(2)));
    assert(range_high(tris, lo, k + 1, 0) == greater(range_high(tris, lo, k, 0), t.high(0)));
    assert(range_high(tris, lo, k + 1, 1) == greater(range_high(tris, lo, k, 1), t.high(1)));
    assert(range_high(tris, lo, k + 1, 2) == greater(range_high(tris, lo, k, 2), t.high(2)));
}

/// The exact box of the vertices of `tris[lo..hi]`.
pub fn bounds_of_range(tris: &Vec<Triangle>, lo: usize, hi: usize) -> (b: Aabb)
    requires
        lo <= hi <= tris.len(),
    ensures
        b == bounds_of(tris@, lo as int, hi as int),
{
    let mut b = Aabb::new();
    let mut k: usize = lo;
    while k < hi
        invariant
            lo <= k <= hi <= tris.len(),
            b == bounds_of(tris@, lo as int, k as int),
        decreases hi - k,
    {
        let t = tris[k];
        proof {
            lemma_bounds_of_step(tris@, lo as int, k as int);
        }
        b.expand(&t.v0);
        b.expand(&t.v1);
        b.expand(&t.v2);
        k = k + 1;
    }
    b
}

} // verus!
