//! The sweep of a capsule through the collision mesh, as five parallel
//! segments.

use vstd::prelude::*;
use crate::enhancements::collision::Found;
use crate::enhancements::collision::Hit;
use crate::enhancements::collision::first_hit;
use crate::enhancements::collision::improves;
use crate::enhancements::collision::lemma_hit_has_normal;
use crate::enhancements::collision::point_along;
use crate::enhancements::geometry::Point;
use crate::enhancements::geometry::Triangle;
use crate::enhancements::grid::GRID_LIMIT;
use crate::enhancements::grid::Shift;
use crate::enhancements::grid::Vector;
use crate::enhancements::grid::Wide;
use crate::enhancements::grid::lemma_mul_bounds;
use crate::enhancements::grid::scale_to;
use crate::enhancements::grid::scaled_to;
use crate::enhancements::map_loader::MapMesh;
use crate::enhancements::query::answers;

verus! {

/// The segment runs so nearly along the z axis that its z part is at
/// least 99 hundredths of its length.
pub open spec fn nearly_vertical(d: Vector) -> bool {
    d.z * d.z * 10000 >= 9801 * d.dot(d)
}

/// A direction across the segment: across the z axis too, or, where the
/// segment runs nearly along the z axis, across the x axis.
pub open spec fn side_dir(d: Vector) -> Vector {
    if nearly_vertical(d) {
        Vector { x: 0, y: d.z, z: -d.y }
    } else {
        Vector { x: d.y, y: -d.x, z: 0 }
    }
}

/// The direction across both the segment and `side_dir`.
pub open spec fn up_dir(d: Vector) -> Vector {
    side_dir(d).cross(d)
}

/// The vector of the same length the other way.
pub open spec fn negated(v: Vector) -> Vector {
    Vector { x: -v.x, y: -v.y, z: -v.z }
}

/// By how much the five segments of a capsule query are shifted: not at
/// all, then by the radius to either side, then by the radius up and down.
pub open spec fn capsule_offsets(start: Point, end: Point, radius: int) -> Seq<Vector> {
    let d = end.at().minus(start.at());
    let side = scaled_to(side_dir(d), radius);
    let up = scaled_to(up_dir(d), radius);
    seq![Vector { x: 0, y: 0, z: 0 }, side, negated(side), up, negated(up)]
}

/// The point moved by a vector.
pub open spec fn shifted(p: Point, by: Vector) -> Point {
    Point { x: (p.x + by.x) as i32, y: (p.y + by.y) as i32, z: (p.z + by.z) as i32 }
}

/// The earliest of the first hits of the first `k` shifted segments; of
/// several at the same place the one of the earliest segment.
pub open spec fn capsule_pick(
    tris: Seq<Triangle>,
    start: Point,
    end: Point,
    offsets: Seq<Vector>,
    k: int,
) -> Option<Found>
    decreases k,
{
    if k <= 0 {
        None
    } else {
        let before = capsule_pick(tris, start, end, offsets, k - 1);
        let by = offsets[k - 1];
        match first_hit(tris, shifted(start, by), shifted(end, by)) {
            Some(f) => if improves(f.place, before) {
                Some(f)
            } else {
                before
            },
            None => before,
        }
    }
}

/// What a capsule of the given radius, swept from `start` to `end`, hits
/// first: the earliest hit of five parallel segments. A capsule that does
/// not move hits nothing.
pub open spec fn capsule_hit(tris: Seq<Triangle>, start: Point, end: Point, radius: int) -> Option<
    Found,
> {
    if start == end {
        None
    } else {
        capsule_pick(tris, start, end, capsule_offsets(start, end, radius), 5)
    }
}

impl Point {
    /// Every coordinate is at least `radius` inside the grid limit.
    pub open spec fn in_reach(self, radius: int) -> bool {
        self.at().within(GRID_LIMIT - radius)
    }

    /// Whether every coordinate is at least `radius` inside the grid
    /// limit.
    pub fn is_in_reach(&self, radius: u32) -> (ok: bool)
        requires
            radius <= GRID_LIMIT,
        ensures
            ok == self.in_reach(radius as int),
    {
        let room: i32 = GRID_LIMIT - radius as i32;
        -room <= self.x && self.x <= room && -room <= self.y && self.y <= room && -room <= self.z
            && self.z <= room
    }
}

/// The point moved by a shift that keeps it on the grid.
fn shift_point(p: &Point, by: &Shift, Ghost(radius): Ghost<int>) -> (out: Point)
    requires
        0 <= radius <= GRID_LIMIT,
        p.in_reach(radius),
        by@.within(radius),
    ensures
        out == shifted(*p, by@),
        out.in_grid(),
{
    Point { x: p.x + by.x, y: p.y + by.y, z: p.z + by.z }
}

/// The five shifts of a capsule query along a segment that has a length.
#[verifier::rlimit(40)]
fn capsule_shifts(start: &Point, end: &Point, radius: u32) -> (out: [Shift; 5])
    requires
        start.in_grid(),
        end.in_grid(),
        *start != *end,
        radius <= GRID_LIMIT,
    ensures
        forall|k: int| 0 <= k < 5 ==> (#[trigger] out@[k])@ == capsule_offsets(
            *start,
            *end,
            radius as int,
        )[k],
        forall|k: int| 0 <= k < 5 ==> (#[trigger] out@[k])@.within(radius as int),
{
    let dx: i64 = end.x as i64 - start.x as i64;
    let dy: i64 = end.y as i64 - start.y as i64;
    let dz: i64 = end.z as i64 - start.z as i64;
    let ghost d = end.at().minus(start.at());
    proof {
        lemma_mul_bounds(dx as int, dx as int, 0x10_0000, 0x10_0000);
        lemma_mul_bounds(dy as int, dy as int, 0x10_0000, 0x10_0000);
        lemma_mul_bounds(dz as int, dz as int, 0x10_0000, 0x10_0000);
        lemma_mul_bounds(dx as int, dy as int, 0x10_0000, 0x10_0000);
        lemma_mul_bounds(dx as int, dz as int, 0x10_0000, 0x10_0000);
        lemma_mul_bounds(dy as int, dz as int, 0x10_0000, 0x10_0000);
        assert(dx * dx >= 0 && dy * dy >= 0 && dz * dz >= 0) by (nonlinear_arith);
        assert(dx != 0 ==> dx * dx > 0) by (nonlinear_arith);
        assert(dy != 0 ==> dy * dy > 0) by (nonlinear_arith);
        assert(dz != 0 ==> dz * dz > 0) by (nonlinear_arith);
        assert(d.z * d.z * 10000 == (dz * dz) * 10000);
        assert(dy * dx == dx * dy && dz * dx == dx * dz && dz * dy == dy * dz)
            by (nonlinear_arith);
    }
    let xx = dx * dx;
    let yy = dy * dy;
    let zz = dz * dz;
    let steep = zz * 10000 >= 9801 * (xx + yy + zz);
    assert(steep == nearly_vertical(d));
    let (sx, sy, sz): (i64, i64, i64) = if steep {
        (0, dz, -dy)
    } else {
        (dy, -dx, 0)
    };
    let (ux, uy, uz): (i64, i64, i64) = if steep {
        (yy + zz, -(dx * dy), -(dx * dz))
    } else {
        (-(dx * dz), -(dy * dz), xx + yy)
    };
    proof {
        let side = side_dir(d);
        let up = up_dir(d);
        assert(side == Vector { x: sx as int, y: sy as int, z: sz as int });
        if steep {
            assert(up.x == dz * dz - (-dy) * dy) by (nonlinear_arith)
                requires
                    up.x == side.y * d.z - side.z * d.y,
                    side.y == dz,
                    side.z == -dy,
                    d.z == dz,
                    d.y == dy,
            ;
            assert(up.y == -(dx * dy)) by (nonlinear_arith)
                requires
                    up.y == side.z * d.x - side.x * d.z,
                    side.z == -dy,
                    side.x == 0,
                    d.x == dx,
            ;
            assert(up.z == -(dx * dz)) by (nonlinear_arith)
                requires
                    up.z == side.x * d.y - side.y * d.x,
                    side.y == dz,
                    side.x == 0,
                    d.x == dx,
            ;
            assert((-dy) * dy == -(dy * dy)) by (nonlinear_arith);
        } else {
            assert(up.x == -(dx * dz)) by (nonlinear_arith)
                requires
                    up.x == side.y * d.z - side.z * d.y,
                    side.y == -dx,
                    side.z == 0,
                    d.z == dz,
            ;
            assert(up.y == -(dy * dz)) by (nonlinear_arith)
                requires
                    up.y == side.z * d.x - side.x * d.z,
                    side.z == 0,
                    side.x == dy,
                    d.z == dz,
            ;
            assert(up.z == dy * dy - (-dx) * dx) by (nonlinear_arith)
                requires
                    up.z == side.x * d.y - side.y * d.x,
                    side.x == dy,
                    side.y == -dx,
                    d.y == dy,
                    d.x == dx,
            ;
            assert((-dx) * dx == -(dx * dx)) by (nonlinear_arith);
        }
        assert(up == Vector { x: ux as int, y: uy as int, z: uz as int });
    }
    let side = scale_to(&Wide { x: sx, y: sy, z: sz }, radius);
    let up = scale_to(&Wide { x: ux, y: uy, z: uz }, radius);
    let out = [
        Shift { x: 0, y: 0, z: 0 },
        side,
        Shift { x: -side.x, y: -side.y, z: -side.z },
        up,
        Shift { x: -up.x, y: -up.y, z: -up.z },
    ];
    proof {
        let want = capsule_offsets(*start, *end, radius as int);
        assert(out@[0]@ == want[0]);
        assert(out@[1]@ == want[1]);
        assert(out@[2]@ == want[2]);
        assert(out@[3]@ == want[3]);
        assert(out@[4]@ == want[4]);
    }
    out
}

/// The triangle's face normal is not zero: the triangle has an area.
pub open spec fn has_normal(tri: Triangle) -> bool {
    tri.normal().dot(tri.normal()) > 0
}

impl MapMesh {
    /// What a capsule of the given radius, swept from `start` to `end`,
    /// hits first; with radius zero, what the segment hits first.
    ///
    /// The capsule is swept as five parallel segments, and the hit is
    /// reported at its place along the middle one.
    #[verifier::rlimit(40)]
    pub fn check_collision(&self, start: Point, end: Point, radius: u32) -> (hit: Option<Hit>)
        requires
            self.well_formed(),
            self.in_grid(),
            radius <= GRID_LIMIT,
            start.in_reach(radius as int),
            end.in_reach(radius as int),
        ensures
            radius == 0 ==> answers(hit, first_hit(self.triangles@, start, end), start, end),
            radius > 0 ==> answers(
                hit,
                capsule_hit(self.triangles@, start, end, radius as int),
                start,
                end,
            ),
            hit is Some ==> {
                &&& hit->0.place.is_proper()
                &&& hit->0.triangle < self.triangles@.len()
                &&& radius > 0 ==> capsule_hit(
                    self.triangles@,
                    start,
                    end,
                    radius as int,
                )->0.index == hit->0.triangle
                &&& has_normal(self.triangles@[hit->0.triangle as int])
            },
    {
        if radius == 0 {
            let hit = self.check_collision_ray(start, end);
            proof {
                if hit is Some {
                    lemma_hit_has_normal(self.triangles@[hit->0.triangle as int], start, end);
                }
            }
            return hit;
        }
        if start.x == end.x && start.y == end.y && start.z == end.z {
            return None;
        }
        let shifts = capsule_shifts(&start, &end, radius);
        let ghost offsets = capsule_offsets(start, end, radius as int);
        let mut best: Option<Hit> = None;
        let mut k: usize = 0;
        while k < 5
            invariant
                0 <= k <= 5,
                self.well_formed(),
                self.in_grid(),
                0 < radius <= GRID_LIMIT,
                start.in_reach(radius as int),
                end.in_reach(radius as int),
                offsets == capsule_offsets(start, end, radius as int),
                forall|j: int| 0 <= j < 5 ==> (#[trigger] shifts@[j])@ == offsets[j],
                forall|j: int| 0 <= j < 5 ==> (#[trigger] shifts@[j])@.within(radius as int),
                answers(
                    best,
                    capsule_pick(self.triangles@, start, end, offsets, k as int),
                    start,
                    end,
                ),
                best is Some ==> {
                    &&& best->0.place.is_proper()
                    &&& best->0.triangle < self.triangles@.len()
                    &&& capsule_pick(self.triangles@, start, end, offsets, k as int)->0.index
                        == best->0.triangle
                    &&& has_normal(self.triangles@[best->0.triangle as int])
                },
            decreases 5 - k,
        {
            let by = shifts[k];
            let from = shift_point(&start, &by, Ghost(radius as int));
            let to = shift_point(&end, &by, Ghost(radius as int));
            match self.check_collision_ray(from, to) {
                Some(h) => {
                    proof {
                        lemma_hit_has_normal(self.triangles@[h.triangle as int], from, to);
                    }
                    let closer = match best {
                        Some(b) => h.place.is_before(&b.place),
                        None => true,
                    };
                    if closer {
                        best = Some(
                            Hit {
                                triangle: h.triangle,
                                place: h.place,
                                position: point_along(&start, &end, &h.place),
                            },
                        );
                    }
                },
                None => {},
            }
            k = k + 1;
        }
        best
    }
}

} // verus!
