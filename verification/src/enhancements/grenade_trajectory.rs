//! The flight of a thrown object: gravity, bounces off the level geometry,
//! and the rules that end it.

use vstd::prelude::*;
use crate::enhancements::capsule::capsule_hit;
use crate::enhancements::capsule::capsule_pick;
use crate::enhancements::capsule::has_normal;
use crate::enhancements::collision::Found;
use crate::enhancements::collision::Fraction;
use crate::enhancements::collision::Hit;
use crate::enhancements::collision::first_hit;
use crate::enhancements::collision::sweep;
use crate::enhancements::geometry::Point;
use crate::enhancements::geometry::Triangle;
use crate::enhancements::grid::GRID_LIMIT;
use crate::enhancements::grid::Vector;
use crate::enhancements::grid::Wide;
use crate::enhancements::grid::area_limit;
use crate::enhancements::grid::lemma_dot_squared;
use crate::enhancements::grid::lemma_mul_bounds;
use crate::enhancements::grid::lemma_part_of;
use crate::enhancements::grid::lemma_root_bound;
use crate::enhancements::grid::lemma_root_square;
use crate::enhancements::grid::lemma_toward_zero_bound;
use crate::enhancements::grid::scale_to;
use crate::enhancements::grid::scaled_to;
use crate::enhancements::grid::toward_zero;
use crate::enhancements::grid::volume_limit;
use crate::enhancements::map_loader::MapMesh;
use crate::settings::esp::Color;
use crate::text::same;

verus! {

/// How many ticks make a second.
pub const TICKS_PER_SECOND: u32 = 64;

/// The most ticks that a flight is followed for.
pub const MAX_STEPS: usize = 130;

/// How many grid units make a world unit.
pub const GRID_PER_UNIT: i64 = 16;

/// How many fine units make a grid unit. A velocity of one grid unit a
/// second moves an object by one fine unit a tick.
pub const FINE_PER_GRID: i64 = 64;

/// By how much gravity changes the vertical velocity in a tick: 800 world
/// units a second each second, in grid units a second.
pub const GRAVITY_PER_TICK: i64 = 200;

/// The radius of the capsule that stands for the object: two world units,
/// in grid units.
pub const CAPSULE_RADIUS: u32 = 32;

/// How far an object is moved off a surface that it hit: a tenth of a
/// world unit, in fine units.
pub const NUDGE: u32 = 102;

/// The squared speed below which an object that bounced has come to rest:
/// ten world units a second, squared, in grid units a second.
pub const REST_SPEED_SQUARED: i64 = 25600;

/// How far below the thrower's floor an object is followed: a thousand
/// world units, in fine units.
pub const FLOOR_DROP: i64 = 1024000;

/// The greatest speed along an axis at which an object can be thrown, in
/// grid units a second.
pub const SPEED_LIMIT: i64 = 131072;

/// The greatest magnitude of a coordinate from which an object can be
/// thrown, in fine units.
pub const FINE_LIMIT: i64 = 0x100_0000_0000;

/// The part of the speed against a surface that a bounce gives back, in
/// hundredths.
pub const ELASTICITY: i64 = 45;

/// The part of the speed along a surface that a bounce keeps, in
/// hundredths.
pub const FRICTION: i64 = 40;

/// The kinds of thrown objects.
#[derive(Clone, Copy, Debug, PartialEq, Eq, Structural)]
pub enum ActiveGrenadeType {
    Smoke,
    Molotov,
    HE,
    Flash,
    Decoy,
    Unknown,
}

impl ActiveGrenadeType {
    /// After how many ticks in the air the kind goes off, if it does: the
    /// first tick at which 1.1 seconds have passed for the two that burst,
    /// 3.5 seconds for the one that burns.
    pub open spec fn fuse(self) -> Option<u32> {
        match self {
            ActiveGrenadeType::HE => Some(71u32),
            ActiveGrenadeType::Flash => Some(71u32),
            ActiveGrenadeType::Molotov => Some(224u32),
            _ => None,
        }
    }

    /// The colour and, in world units, the radius with which the place of
    /// landing is marked.
    pub open spec fn visuals(self) -> (Color, u32) {
        match self {
            ActiveGrenadeType::Smoke => (Color(0x66997f7f), 144u32),
            ActiveGrenadeType::Molotov => (Color(0x66004cff), 150u32),
            ActiveGrenadeType::HE => (Color(0x661919ff), 144u32),
            ActiveGrenadeType::Flash => (Color(0x99ffffff), 30u32),
            ActiveGrenadeType::Decoy => (Color(0x9933ff33), 15u32),
            ActiveGrenadeType::Unknown => (Color(0x66ffffff), 10u32),
        }
    }

    /// After how many ticks in the air the kind goes off, if it does.
    pub fn get_detonation_time(&self) -> (ticks: Option<u32>)
        ensures
            ticks == self.fuse(),
    {
        match self {
            ActiveGrenadeType::HE => Some(71),
            ActiveGrenadeType::Flash => Some(71),
            ActiveGrenadeType::Molotov => Some(224),
            _ => None,
        }
    }

    /// The colour and, in world units, the radius with which the place of
    /// landing is marked.
    pub fn get_visuals(&self) -> (look: (Color, u32))
        ensures
            look == self.visuals(),
    {
        match self {
            ActiveGrenadeType::Smoke => (Color::from_u32(0x66997f7f), 144),
            ActiveGrenadeType::Molotov => (Color::from_u32(0x66004cff), 150),
            ActiveGrenadeType::HE => (Color::from_u32(0x661919ff), 144),
            ActiveGrenadeType::Flash => (Color::from_u32(0x99ffffff), 30),
            ActiveGrenadeType::Decoy => (Color::from_u32(0x9933ff33), 15),
            ActiveGrenadeType::Unknown => (Color::from_u32(0x66ffffff), 10),
        }
    }

    /// The kind of the thrown object with the given item number: 43 is
    /// the one that blinds, 44 the one that bursts, 45 the one that
    /// smokes, 46 and 48 are the two that burn, 47 is the one that
    /// deceives. Any other number is of a kind that is not known.
    pub open spec fn of_item(item: u32) -> ActiveGrenadeType {
        if item == 43 {
            ActiveGrenadeType::Flash
        } else if item == 44 {
            ActiveGrenadeType::HE
        } else if item == 45 {
            ActiveGrenadeType::Smoke
        } else if item == 46 || item == 48 {
            ActiveGrenadeType::Molotov
        } else if item == 47 {
            ActiveGrenadeType::Decoy
        } else {
            ActiveGrenadeType::Unknown
        }
    }

    /// The kind of the thrown object with the given item number.
    pub fn from_item(item: u32) -> (kind: ActiveGrenadeType)
        ensures
            kind == ActiveGrenadeType::of_item(item),
    {
        match item {
            43 => ActiveGrenadeType::Flash,
            44 => ActiveGrenadeType::HE,
            45 => ActiveGrenadeType::Smoke,
            46 | 48 => ActiveGrenadeType::Molotov,
            47 => ActiveGrenadeType::Decoy,
            _ => ActiveGrenadeType::Unknown,
        }
    }

    /// The flight of the kind is over once `ticks` ticks have passed.
    pub open spec fn detonates(self, ticks: int) -> bool {
        match self.fuse() {
            Some(fuse) => ticks >= fuse,
            None => false,
        }
    }
}

/// A position in fine units.
#[derive(Clone, Copy, PartialEq, Eq, Structural, Debug)]
pub struct FinePoint {
    pub x: i64,
    pub y: i64,
    pub z: i64,
}

impl View for FinePoint {
    type V = Vector;

    open spec fn view(&self) -> Vector {
        Vector { x: self.x as int, y: self.y as int, z: self.z as int }
    }
}

/// The grid coordinate of the cell that a fine coordinate lies in.
pub open spec fn grid_coord(c: int) -> int {
    c / (FINE_PER_GRID as int)
}

/// The grid point of the cell that a position lies in.
pub open spec fn grid_of(p: Vector) -> Point {
    Point { x: grid_coord(p.x) as i32, y: grid_coord(p.y) as i32, z: grid_coord(p.z) as i32 }
}

/// The position lies in a cell from which a capsule query can be made.
pub open spec fn reachable(p: Vector) -> bool {
    let room = GRID_LIMIT - CAPSULE_RADIUS;
    &&& -room <= grid_coord(p.x) <= room
    &&& -room <= grid_coord(p.y) <= room
    &&& -room <= grid_coord(p.z) <= room
}

/// What an object that moves from `from` to `to` hits first. Between
/// cells from which no query can be made there is nothing to hit.
pub open spec fn trace(tris: Seq<Triangle>, from: Vector, to: Vector) -> Option<Found> {
    if reachable(from) && reachable(to) {
        capsule_hit(tris, grid_of(from), grid_of(to), CAPSULE_RADIUS as int)
    } else {
        None
    }
}

/// The sum of two vectors.
pub open spec fn plus(a: Vector, b: Vector) -> Vector {
    Vector { x: a.x + b.x, y: a.y + b.y, z: a.z + b.z }
}

/// The velocity after gravity has acted for a tick.
pub open spec fn fallen(v: Vector) -> Vector {
    Vector { x: v.x, y: v.y, z: v.z - GRAVITY_PER_TICK }
}

/// The part `place` of a tick's movement, each coordinate rounded toward
/// zero.
pub open spec fn part_of_move(v: Vector, place: Fraction) -> Vector {
    Vector {
        x: toward_zero(v.x * place.num, place.den as int),
        y: toward_zero(v.y * place.num, place.den as int),
        z: toward_zero(v.z * place.num, place.den as int),
    }
}

/// A surface with this normal is a floor and no wall: the normal points
/// up, and its upward part is more than 7 tenths of its length.
pub open spec fn is_floor(n: Vector) -> bool {
    n.z > 0 && 100 * (n.z * n.z) > 49 * n.dot(n)
}

/// The position is more than the drop below the thrower's floor.
pub open spec fn fell_out(p: Vector, floor_z: int) -> bool {
    p.z < floor_z - FLOOR_DROP
}

/// One coordinate of the velocity after a bounce, as a numerator over
/// `100 * n.dot(n)`: the part of `v` along the surface times the friction,
/// less the part against it times the elasticity.
pub open spec fn bounce_num(v: Vector, n: Vector, vi: int, ni: int) -> int {
    FRICTION * vi * n.dot(n) - (FRICTION + ELASTICITY) * v.dot(n) * ni
}

/// The velocity after a bounce off a surface with normal `n`, which need
/// not have length one: the part of `v` against the surface is turned
/// around and scaled by the elasticity, the part along it is scaled by the
/// friction, and each coordinate is rounded toward zero.
pub open spec fn bounced(v: Vector, n: Vector) -> Vector {
    let den = 100 * n.dot(n);
    Vector {
        x: toward_zero(bounce_num(v, n, v.x, n.x), den),
        y: toward_zero(bounce_num(v, n, v.y, n.y), den),
        z: toward_zero(bounce_num(v, n, v.z, n.z), den),
    }
}

/// What a tick does to an object.
pub struct Moment {
    /// Where the object hit a surface, if it did.
    pub hit: Option<Vector>,
    /// Where the object is after the tick.
    pub position: Vector,
    /// How it moves after the tick.
    pub velocity: Vector,
    /// Whether the flight is over.
    pub stop: bool,
}

/// One tick of a flight. Gravity acts on the velocity, and the object
/// moves by the velocity unless it hits a surface on the way. An object
/// that burns stays on a floor that it hits. Any other hit turns the
/// object back: it bounces, is moved off the surface a little, and comes
/// to rest if the bounce left it slow. An object that has fallen out below
/// the floor is followed no further.
pub open spec fn tick(
    tris: Seq<Triangle>,
    kind: ActiveGrenadeType,
    floor_z: int,
    position: Vector,
    velocity: Vector,
) -> Moment {
    let v = fallen(velocity);
    let next = plus(position, v);
    match trace(tris, position, next) {
        None => Moment { hit: None, position: next, velocity: v, stop: fell_out(next, floor_z) },
        Some(f) => {
            let at = plus(position, part_of_move(v, f.place));
            let n = tris[f.index].normal();
            if kind == ActiveGrenadeType::Molotov && is_floor(n) {
                Moment { hit: Some(at), position: at, velocity: v, stop: true }
            } else {
                let after = bounced(v, n);
                let off = plus(at, scaled_to(n, NUDGE as int));
                Moment {
                    hit: Some(at),
                    position: off,
                    velocity: after,
                    stop: after.dot(after) < REST_SPEED_SQUARED || fell_out(off, floor_z),
                }
            }
        },
    }
}

/// The path of a flight from the tick after `done` ticks on, after the
/// points in `path`: at each tick the position is recorded, then the fuse
/// is checked, then the tick is made and the place of a hit recorded.
pub open spec fn flight(
    tris: Seq<Triangle>,
    kind: ActiveGrenadeType,
    floor_z: int,
    position: Vector,
    velocity: Vector,
    done: int,
    path: Seq<Vector>,
) -> Seq<Vector>
    decreases MAX_STEPS - done,
{
    if done >= MAX_STEPS {
        path
    } else {
        let recorded = path.push(position);
        if kind.detonates(done + 1) {
            recorded
        } else {
            let m = tick(tris, kind, floor_z, position, velocity);
            let marked = match m.hit {
                Some(at) => recorded.push(at),
                None => recorded,
            };
            if m.stop {
                marked
            } else {
                flight(tris, kind, floor_z, m.position, m.velocity, done + 1, marked)
            }
        }
    }
}

/// The path of an object thrown from `start` with the given velocity.
pub open spec fn trajectory_of(
    tris: Seq<Triangle>,
    kind: ActiveGrenadeType,
    floor_z: int,
    start: Vector,
    velocity: Vector,
) -> Seq<Vector> {
    flight(tris, kind, floor_z, start, velocity, 0, Seq::empty())
}

/// The positions of a path.
pub open spec fn places(path: Seq<FinePoint>) -> Seq<Vector> {
    Seq::new(path.len(), |i: int| path[i]@)
}

/// The greatest speed along an axis that an object has during a flight.
pub open spec fn top_speed() -> int {
    SPEED_LIMIT + GRAVITY_PER_TICK * (MAX_STEPS + 1)
}

/// The greatest speed along an axis that an object has after `done` ticks.
pub open spec fn speed_bound(done: int) -> int {
    SPEED_LIMIT + GRAVITY_PER_TICK * done
}

/// The farthest that an object moves along an axis in a tick.
pub open spec fn stride() -> int {
    top_speed() + NUDGE
}

/// The greatest magnitude of a coordinate that an object has after `done`
/// ticks.
pub open spec fn reach_bound(done: int) -> int {
    FINE_LIMIT + stride() * done
}

/// The squared numerators of a bounce add up to a multiple of the squared
/// speed and a multiple of the squared speed against the surface.
proof fn lemma_bounce_energy(v: Vector, n: Vector)
    ensures
        bounce_num(v, n, v.x, n.x) * bounce_num(v, n, v.x, n.x) + bounce_num(v, n, v.y, n.y)
            * bounce_num(v, n, v.y, n.y) + bounce_num(v, n, v.z, n.z) * bounce_num(
            v,
            n,
            v.z,
            n.z,
        ) == 1600 * (v.dot(v) * (n.dot(n) * n.dot(n))) + 425 * ((v.dot(n) * v.dot(n)) * n.dot(n)),
{
    let (a, b, c) = (v.x, v.y, v.z);
    let (x, y, z) = (n.x, n.y, n.z);
    let d = n.dot(n);
    let w = v.dot(n);
    let s = v.dot(v);
    let (dd, dw, ww) = (d * d, d * w, w * w);
    lemma_bounce_square(a, x, d, w);
    lemma_bounce_square(b, y, d, w);
    lemma_bounce_square(c, z, d, w);
    assert(bounce_num(v, n, a, x) == 40 * (a * d) - 85 * (w * x)) by (nonlinear_arith)
        requires
            bounce_num(v, n, a, x) == 40 * a * d - 85 * w * x,
    ;
    assert(bounce_num(v, n, b, y) == 40 * (b * d) - 85 * (w * y)) by (nonlinear_arith)
        requires
            bounce_num(v, n, b, y) == 40 * b * d - 85 * w * y,
    ;
    assert(bounce_num(v, n, c, z) == 40 * (c * d) - 85 * (w * z)) by (nonlinear_arith)
        requires
            bounce_num(v, n, c, z) == 40 * c * d - 85 * w * z,
    ;
    // add the three up
    assert((a * a) * dd + (b * b) * dd + (c * c) * dd == s * dd) by (nonlinear_arith)
        requires
            s == a * a + b * b + c * c,
    ;
    assert((a * x) * dw + (b * y) * dw + (c * z) * dw == w * dw) by (nonlinear_arith)
        requires
            w == a * x + b * y + c * z,
    ;
    assert(ww * (x * x) + ww * (y * y) + ww * (z * z) == ww * d) by (nonlinear_arith)
        requires
            d == x * x + y * y + z * z,
    ;
    assert(w * dw == ww * d) by (nonlinear_arith)
        requires
            dw == d * w,
            ww == w * w,
    ;
}

/// The square of one numerator of a bounce, multiplied out.
proof fn lemma_bounce_square(a: int, x: int, d: int, w: int)
    ensures
        (40 * (a * d) - 85 * (w * x)) * (40 * (a * d) - 85 * (w * x)) == 1600 * ((a * a) * (d * d))
            - 6800 * ((a * x) * (d * w)) + 7225 * ((w * w) * (x * x)),
{
    let g = a * d;
    let h = w * x;
    assert((40 * g - 85 * h) * (40 * g - 85 * h) == 1600 * (g * g) - 6800 * (g * h) + 7225 * (h
        * h)) by (nonlinear_arith);
    assert(g * g == (a * a) * (d * d)) by (nonlinear_arith)
        requires
            g == a * d,
    ;
    assert(g * h == (a * x) * (d * w)) by (nonlinear_arith)
        requires
            g == a * d,
            h == w * x,
    ;
    assert(h * h == (w * w) * (x * x)) by (nonlinear_arith)
        requires
            h == w * x,
    ;
}

/// A numerator of a bounce is no greater in magnitude than 78 hundredths
/// of the bound on the speed, times the denominator's hundredth.
proof fn lemma_bounce_nums(v: Vector, n: Vector, bound: int)
    requires
        v.within(bound),
        n.dot(n) > 0,
    ensures
        -(78 * (bound * n.dot(n))) <= bounce_num(v, n, v.x, n.x) <= 78 * (bound * n.dot(n)),
        -(78 * (bound * n.dot(n))) <= bounce_num(v, n, v.y, n.y) <= 78 * (bound * n.dot(n)),
        -(78 * (bound * n.dot(n))) <= bounce_num(v, n, v.z, n.z) <= 78 * (bound * n.dot(n)),
{
    let d = n.dot(n);
    let w = v.dot(n);
    let s = v.dot(v);
    let (nx, ny, nz) = (
        bounce_num(v, n, v.x, n.x),
        bounce_num(v, n, v.y, n.y),
        bounce_num(v, n, v.z, n.z),
    );
    let bb = bound * bound;
    let dd = d * d;
    lemma_bounce_energy(v, n);
    lemma_dot_squared(v, n);
    // the squared speed is at most three times the squared bound
    lemma_root_square(v.x, bound);
    lemma_root_square(v.y, bound);
    lemma_root_square(v.z, bound);
    assert(s <= 3 * bb);
    assert(dd >= 0) by (nonlinear_arith)
        requires
            dd == d * d,
    ;
    assert(nx * nx >= 0 && ny * ny >= 0 && nz * nz >= 0) by (nonlinear_arith);
    assert((w * w) * d <= (s * d) * d) by (nonlinear_arith)
        requires
            w * w <= s * d,
            d > 0,
    ;
    assert((s * d) * d == s * dd) by (nonlinear_arith)
        requires
            dd == d * d,
    ;
    assert(s * dd <= (3 * bb) * dd) by (nonlinear_arith)
        requires
            s <= 3 * bb,
            dd >= 0,
    ;
    let t = 78 * (bound * d);
    assert(t * t == 6084 * (bb * dd)) by (nonlinear_arith)
        requires
            t == 78 * (bound * d),
            bb == bound * bound,
            dd == d * d,
    ;
    assert((3 * bb) * dd == 3 * (bb * dd)) by (nonlinear_arith);
    assert(bb * dd >= 0) by (nonlinear_arith)
        requires
            bb == bound * bound,
            dd == d * d,
    ;
    assert(bound >= 0);
    assert(bound * d >= 0) by (nonlinear_arith)
        requires
            bound >= 0,
            d > 0,
    ;
    lemma_root_bound(nx, t);
    lemma_root_bound(ny, t);
    lemma_root_bound(nz, t);
}

/// A bounce does not make an object faster: where no coordinate of the
/// velocity was beyond a bound before, none is after.
pub proof fn lemma_bounce_is_no_faster(v: Vector, n: Vector, bound: int)
    requires
        v.within(bound),
        n.dot(n) > 0,
    ensures
        bounced(v, n).within(bound),
{
    let d = n.dot(n);
    lemma_bounce_nums(v, n, bound);
    assert(bound >= 0);
    assert(78 * (bound * d) <= bound * (100 * d)) by (nonlinear_arith)
        requires
            bound >= 0,
            d > 0,
    ;
    lemma_toward_zero_bound(bounce_num(v, n, v.x, n.x), 100 * d, bound);
    lemma_toward_zero_bound(bounce_num(v, n, v.y, n.y), 100 * d, bound);
    lemma_toward_zero_bound(bounce_num(v, n, v.z, n.z), 100 * d, bound);
}

/// `n / d` rounded toward zero.
fn div_toward_zero(n: i128, d: i128) -> (q: i128)
    requires
        d > 0,
        n > i128::MIN,
    ensures
        q == toward_zero(n as int, d as int),
{
    if n >= 0 {
        n / d
    } else {
        -((-n) / d)
    }
}

/// The grid coordinate of the cell that a fine coordinate lies in.
fn floor_grid(c: i64) -> (g: i64)
    requires
        -0x4000_0000_0000_0000 <= c <= 0x4000_0000_0000_0000,
    ensures
        g == grid_coord(c as int),
{
    if c >= 0 {
        c / 64
    } else {
        -((-c + 63) / 64)
    }
}

/// The grid point of the cell that a position lies in, where a capsule
/// query can be made from there.
fn to_grid(p: &FinePoint) -> (g: Option<Point>)
    requires
        p@.within(0x4000_0000_0000_0000),
    ensures
        g is Some <==> reachable(p@),
        g is Some ==> g->0 == grid_of(p@) && g->0.in_reach(CAPSULE_RADIUS as int),
{
    let room: i64 = (GRID_LIMIT - CAPSULE_RADIUS as i32) as i64;
    let x = floor_grid(p.x);
    let y = floor_grid(p.y);
    let z = floor_grid(p.z);
    if -room <= x && x <= room && -room <= y && y <= room && -room <= z && z <= room {
        Some(Point { x: x as i32, y: y as i32, z: z as i32 })
    } else {
        None
    }
}

/// The triangles of a mesh; none where there is no mesh.
pub open spec fn triangles_of(mesh: Option<&MapMesh>) -> Seq<Triangle> {
    match mesh {
        Some(m) => m.triangles@,
        None => Seq::empty(),
    }
}

/// Without triangles a capsule hits nothing.
pub proof fn lemma_nothing_to_hit(start: Point, end: Point, radius: int)
    ensures
        capsule_hit(Seq::<Triangle>::empty(), start, end, radius) is None,
{
    let tris = Seq::<Triangle>::empty();
    reveal_with_fuel(capsule_pick, 6);
    assert forall|a: Point, b: Point| first_hit(tris, a, b) is None by {
        assert(sweep(tris, a, b, 0, 0, None) is None);
    }
}

/// What an object that moves from `from` to `to` hits first.
pub fn trace_ray(mesh: Option<&MapMesh>, from: &FinePoint, to: &FinePoint) -> (hit: Option<Hit>)
    requires
        mesh is Some ==> mesh->0.well_formed() && mesh->0.in_grid(),
        from@.within(0x4000_0000_0000_0000),
        to@.within(0x4000_0000_0000_0000),
    ensures
        match trace(triangles_of(mesh), from@, to@) {
            None => hit is None,
            Some(f) => {
                &&& hit is Some
                &&& hit->0.place == f.place
                &&& hit->0.triangle == f.index
                &&& f.index < triangles_of(mesh).len()
                &&& f.place.is_proper()
                &&& has_normal(triangles_of(mesh)[f.index])
            },
        },
{
    let a = to_grid(from);
    let b = to_grid(to);
    match (mesh, a, b) {
        (Some(m), Some(a), Some(b)) => m.check_collision(a, b, CAPSULE_RADIUS),
        (None, Some(a), Some(b)) => {
            proof {
                lemma_nothing_to_hit(a, b, CAPSULE_RADIUS as int);
            }
            None
        },
        _ => None,
    }
}

/// The velocity after a bounce off a surface with normal `n`.
#[verifier::rlimit(40)]
pub fn bounce(v: &Wide, n: &Wide) -> (out: Wide)
    requires
        v@.within(top_speed()),
        n@.within(area_limit()),
        n@.dot(n@) > 0,
    ensures
        out@ == bounced(v@, n@),
{
    proof {
        lemma_mul_bounds(n.x as int, n.x as int, area_limit(), area_limit());
        lemma_mul_bounds(n.y as int, n.y as int, area_limit(), area_limit());
        lemma_mul_bounds(n.z as int, n.z as int, area_limit(), area_limit());
        lemma_mul_bounds(v.x as int, n.x as int, top_speed(), area_limit());
        lemma_mul_bounds(v.y as int, n.y as int, top_speed(), area_limit());
        lemma_mul_bounds(v.z as int, n.z as int, top_speed(), area_limit());
    }
    let d: i128 = (n.x as i128) * (n.x as i128) + (n.y as i128) * (n.y as i128) + (n.z as i128) * (
    n.z as i128);
    let w: i128 = (v.x as i128) * (n.x as i128) + (v.y as i128) * (n.y as i128) + (v.z as i128) * (
    n.z as i128);
    proof {
        assert(d == n@.dot(n@));
        assert(w == v@.dot(n@));
        lemma_bounce_is_no_faster(v@, n@, top_speed());
    }
    Wide {
        x: bounce_coord(v.x, n.x, d, w, Ghost(v@), Ghost(n@)),
        y: bounce_coord(v.y, n.y, d, w, Ghost(v@), Ghost(n@)),
        z: bounce_coord(v.z, n.z, d, w, Ghost(v@), Ghost(n@)),
    }
}

/// One coordinate of the velocity after a bounce.
fn bounce_coord(vi: i64, ni: i64, d: i128, w: i128, Ghost(v): Ghost<Vector>, Ghost(n): Ghost<Vector>) -> (out: i64)
    requires
        d == n.dot(n),
        w == v.dot(n),
        0 < d <= 3 * (area_limit() * area_limit()),
        -(3 * (top_speed() * area_limit())) <= w <= 3 * (top_speed() * area_limit()),
        -top_speed() <= vi <= top_speed(),
        -area_limit() <= ni <= area_limit(),
        -top_speed() <= toward_zero(bounce_num(v, n, vi as int, ni as int), 100 * d) <= top_speed(),
    ensures
        out == toward_zero(bounce_num(v, n, vi as int, ni as int), 100 * d),
{
    proof {
        assert(top_speed() == 157272);
        assert(area_limit() * area_limit() == 4835703278458516698824704);
        assert(top_speed() * area_limit() == 345844785447174144);
        lemma_mul_bounds(vi as int, d as int, 157272, 14507109835375550096474112);
        lemma_mul_bounds(w as int, ni as int, 1037534356341522432, 2199023255552);
        assert(40 * vi * d == 40 * (vi * d)) by (nonlinear_arith);
        assert(85 * w * ni == 85 * (w * ni)) by (nonlinear_arith);
    }
    let kept: i128 = 40 * ((vi as i128) * d);
    let lost: i128 = 85 * (w * (ni as i128));
    let q = div_toward_zero(kept - lost, 100 * d);
    q as i64
}

/// The part `place` of a tick's movement.
fn move_part(v: &Wide, place: &Fraction) -> (out: Wide)
    requires
        v@.within(top_speed()),
        place.is_proper(),
    ensures
        out@ == part_of_move(v@, *place),
        out@.within(top_speed()),
{
    Wide {
        x: move_coord(v.x, place),
        y: move_coord(v.y, place),
        z: move_coord(v.z, place),
    }
}

/// One coordinate of the part `place` of a tick's movement.
fn move_coord(c: i64, place: &Fraction) -> (out: i64)
    requires
        -top_speed() <= c <= top_speed(),
        place.is_proper(),
    ensures
        out == toward_zero(c * place.num, place.den as int),
        -top_speed() <= out <= top_speed(),
{
    let num = place.num as i128;
    let den = place.den as i128;
    if c >= 0 {
        proof {
            lemma_mul_bounds(c as int, num as int, top_speed(), volume_limit());
            lemma_part_of(c as int, num as int, den as int);
        }
        (((c as i128) * num) / den) as i64
    } else {
        proof {
            lemma_mul_bounds(-c as int, num as int, top_speed(), volume_limit());
            lemma_part_of(-c as int, num as int, den as int);
            assert((-c) * num == -(c * num)) by (nonlinear_arith);
        }
        (-(((-(c as i128)) * num) / den)) as i64
    }
}

/// Whether a surface with this normal is a floor and no wall.
fn floor_like(n: &Wide) -> (yes: bool)
    requires
        n@.within(area_limit()),
    ensures
        yes == is_floor(n@),
{
    proof {
        lemma_mul_bounds(n.x as int, n.x as int, area_limit(), area_limit());
        lemma_mul_bounds(n.y as int, n.y as int, area_limit(), area_limit());
        lemma_mul_bounds(n.z as int, n.z as int, area_limit(), area_limit());
    }
    let zz: i128 = (n.z as i128) * (n.z as i128);
    let d: i128 = (n.x as i128) * (n.x as i128) + (n.y as i128) * (n.y as i128) + zz;
    n.z > 0 && 100 * zz > 49 * d
}

/// What a tick does to an object.
#[derive(Clone, Copy, Debug)]
pub struct Step {
    /// Where the object hit a surface, if it did.
    pub hit: Option<FinePoint>,
    /// Where the object is after the tick.
    pub position: FinePoint,
    /// How it moves after the tick.
    pub velocity: Wide,
    /// Whether the flight is over.
    pub stop: bool,
}

impl View for Step {
    type V = Moment;

    open spec fn view(&self) -> Moment {
        Moment {
            hit: match self.hit {
                Some(at) => Some(at@),
                None => None,
            },
            position: self.position@,
            velocity: self.velocity@,
            stop: self.stop,
        }
    }
}

/// The position moved by a vector.
fn shift_fine(p: &FinePoint, by: &Wide, Ghost(reach): Ghost<int>, Ghost(step): Ghost<int>) -> (out:
    FinePoint)
    requires
        0 <= reach <= 0x2000_0000_0000_0000,
        0 <= step <= 0x2000_0000_0000_0000,
        p@.within(reach),
        by@.within(step),
    ensures
        out@ == plus(p@, by@),
        out@.within(reach + step),
{
    FinePoint { x: p.x + by.x, y: p.y + by.y, z: p.z + by.z }
}

/// One tick of a flight.
#[verifier::rlimit(40)]
fn step(
    mesh: Option<&MapMesh>,
    kind: ActiveGrenadeType,
    floor_z: i64,
    position: &FinePoint,
    velocity: &Wide,
    Ghost(done): Ghost<int>,
) -> (out: Step)
    requires
        mesh is Some ==> mesh->0.well_formed() && mesh->0.in_grid(),
        0 <= done < MAX_STEPS,
        position@.within(reach_bound(done)),
        velocity@.within(speed_bound(done)),
        -FINE_LIMIT <= floor_z <= FINE_LIMIT,
    ensures
        out@ == tick(triangles_of(mesh), kind, floor_z as int, position@, velocity@),
        out.position@.within(reach_bound(done + 1)),
        out.velocity@.within(speed_bound(done + 1)),
        out.hit is Some ==> out.hit->0@.within(reach_bound(done + 1)),
{
    proof {
        assert(top_speed() == 157272);
        assert(stride() == 157374);
        assert(reach_bound(done) == FINE_LIMIT + 157374 * done);
        assert(reach_bound(done + 1) == reach_bound(done) + 157374);
        assert(speed_bound(done + 1) == speed_bound(done) + 200);
        assert(speed_bound(done + 1) <= top_speed());
    }
    let v = Wide { x: velocity.x, y: velocity.y, z: velocity.z - GRAVITY_PER_TICK };
    let next = shift_fine(position, &v, Ghost(reach_bound(done)), Ghost(top_speed()));
    let (hit, tri) = match (mesh, trace_ray(mesh, position, &next)) {
        (Some(m), Some(hit)) => (hit, m.triangles[hit.triangle as usize]),
        _ => {
            return Step {
                hit: None,
                position: next,
                velocity: v,
                stop: next.z < floor_z - FLOOR_DROP,
            };
        },
    };
    let part = move_part(&v, &hit.place);
    let at = shift_fine(position, &part, Ghost(reach_bound(done)), Ghost(top_speed()));
    let n = tri.face_normal();
    let burns = match kind {
        ActiveGrenadeType::Molotov => true,
        _ => false,
    };
    if burns && floor_like(&n) {
        return Step { hit: Some(at), position: at, velocity: v, stop: true };
    }
    let after = bounce(&v, &n);
    proof {
        lemma_bounce_is_no_faster(v@, n@, speed_bound(done + 1));
        lemma_mul_bounds(after.x as int, after.x as int, top_speed(), top_speed());
        lemma_mul_bounds(after.y as int, after.y as int, top_speed(), top_speed());
        lemma_mul_bounds(after.z as int, after.z as int, top_speed(), top_speed());
        assert(n.x != 0 || n.y != 0 || n.z != 0) by {
            if n.x == 0 && n.y == 0 && n.z == 0 {
                assert(n@.dot(n@) == 0) by (nonlinear_arith)
                    requires
                        n@.x == 0 && n@.y == 0 && n@.z == 0,
                        n@.dot(n@) == n@.x * n@.x + n@.y * n@.y + n@.z * n@.z,
                ;
            }
        }
    }
    let push = scale_to(&n, NUDGE);
    let push_wide = Wide { x: push.x as i64, y: push.y as i64, z: push.z as i64 };
    let off = FinePoint { x: at.x + push_wide.x, y: at.y + push_wide.y, z: at.z + push_wide.z };
    let speed = after.x * after.x + after.y * after.y + after.z * after.z;
    Step {
        hit: Some(at),
        position: off,
        velocity: after,
        stop: speed < REST_SPEED_SQUARED || off.z < floor_z - FLOOR_DROP,
    }
}

/// Recording a position records its place.
proof fn lemma_places_push(path: Seq<FinePoint>, p: FinePoint)
    ensures
        places(path.push(p)) == places(path).push(p@),
{
    assert(places(path.push(p)) =~= places(path).push(p@));
}

/// The path of an object of the given kind that is thrown from `start`
/// with the given velocity, through the given mesh or through the void;
/// `floor_z` is the height of the floor that the thrower stands on.
#[verifier::rlimit(40)]
pub fn simulate(
    mesh: Option<&MapMesh>,
    kind: ActiveGrenadeType,
    floor_z: i64,
    start: FinePoint,
    velocity: Wide,
) -> (path: Vec<FinePoint>)
    requires
        mesh is Some ==> mesh->0.well_formed() && mesh->0.in_grid(),
        start@.within(FINE_LIMIT as int),
        velocity@.within(SPEED_LIMIT as int),
        -FINE_LIMIT <= floor_z <= FINE_LIMIT,
    ensures
        places(path@) == trajectory_of(
            triangles_of(mesh),
            kind,
            floor_z as int,
            start@,
            velocity@,
        ),
{
    let ghost tris = triangles_of(mesh);
    let ghost want = trajectory_of(tris, kind, floor_z as int, start@, velocity@);
    let mut path: Vec<FinePoint> = Vec::new();
    let mut position = start;
    let mut moving = velocity;
    let mut done: usize = 0;
    let fuse = kind.get_detonation_time();
    assert(places(path@) =~= Seq::<Vector>::empty());
    while done < MAX_STEPS
        invariant
            0 <= done <= MAX_STEPS,
            mesh is Some ==> mesh->0.well_formed() && mesh->0.in_grid(),
            tris == triangles_of(mesh),
            fuse == kind.fuse(),
            -FINE_LIMIT <= floor_z <= FINE_LIMIT,
            position@.within(reach_bound(done as int)),
            moving@.within(speed_bound(done as int)),
            want == trajectory_of(tris, kind, floor_z as int, start@, velocity@),
            want == flight(
                tris,
                kind,
                floor_z as int,
                position@,
                moving@,
                done as int,
                places(path@),
            ),
        decreases MAX_STEPS - done,
    {
        proof {
            lemma_places_push(path@, position);
        }
        path.push(position);
        let over = match fuse {
            Some(f) => done + 1 >= f as usize,
            None => false,
        };
        if over {
            return path;
        }
        let s = step(mesh, kind, floor_z, &position, &moving, Ghost(done as int));
        match s.hit {
            Some(at) => {
                proof {
                    lemma_places_push(path@, at);
                }
                path.push(at);
            },
            None => {},
        }
        if s.stop {
            return path;
        }
        position = s.position;
        moving = s.velocity;
        done = done + 1;
    }
    path
}

/// A flight adds at least nothing and at most two points a tick to a
/// path.
pub proof fn lemma_flight_is_bounded(
    tris: Seq<Triangle>,
    kind: ActiveGrenadeType,
    floor_z: int,
    position: Vector,
    velocity: Vector,
    done: int,
    path: Seq<Vector>,
)
    requires
        0 <= done <= MAX_STEPS,
    ensures
        path.len() <= flight(tris, kind, floor_z, position, velocity, done, path).len()
            <= path.len() + 2 * (MAX_STEPS - done),
    decreases MAX_STEPS - done,
{
    if done < MAX_STEPS && !kind.detonates(done + 1) {
        let m = tick(tris, kind, floor_z, position, velocity);
        let recorded = path.push(position);
        let marked = match m.hit {
            Some(at) => recorded.push(at),
            None => recorded,
        };
        if !m.stop {
            lemma_flight_is_bounded(tris, kind, floor_z, m.position, m.velocity, done + 1, marked);
        }
    }
}

/// A flight keeps the points that were recorded before it, and records
/// first of all where the object is.
pub proof fn lemma_flight_starts_where_thrown(
    tris: Seq<Triangle>,
    kind: ActiveGrenadeType,
    floor_z: int,
    position: Vector,
    velocity: Vector,
    done: int,
    path: Seq<Vector>,
)
    requires
        0 <= done <= MAX_STEPS,
    ensures
        ({
            let out = flight(tris, kind, floor_z, position, velocity, done, path);
            &&& out.len() >= path.len()
            &&& forall|i: int| 0 <= i < path.len() ==> #[trigger] out[i] == path[i]
            &&& done < MAX_STEPS ==> out.len() > path.len() && out[path.len() as int] == position
        }),
    decreases MAX_STEPS - done,
{
    if done < MAX_STEPS && !kind.detonates(done + 1) {
        let m = tick(tris, kind, floor_z, position, velocity);
        let recorded = path.push(position);
        let marked = match m.hit {
            Some(at) => recorded.push(at),
            None => recorded,
        };
        if !m.stop {
            lemma_flight_starts_where_thrown(
                tris,
                kind,
                floor_z,
                m.position,
                m.velocity,
                done + 1,
                marked,
            );
            let out = flight(tris, kind, floor_z, position, velocity, done, path);
            assert forall|i: int| 0 <= i < path.len() implies #[trigger] out[i] == path[i] by {
                assert(marked[i] == path[i]);
            }
            assert(out[path.len() as int] == marked[path.len() as int]);
        }
    }
}

/// The flight of an object with a fuse ends when the fuse has burnt: it
/// records a point for that tick and at most two for each tick before it.
pub proof fn lemma_fuse_ends_flight(
    tris: Seq<Triangle>,
    kind: ActiveGrenadeType,
    floor_z: int,
    position: Vector,
    velocity: Vector,
    done: int,
    path: Seq<Vector>,
)
    requires
        0 <= done,
        kind.fuse() is Some,
        done < kind.fuse()->0,
    ensures
        flight(tris, kind, floor_z, position, velocity, done, path).len() <= path.len() + 2 * (
        kind.fuse()->0 - done) - 1,
    decreases MAX_STEPS - done,
{
    if done < MAX_STEPS && !kind.detonates(done + 1) {
        let m = tick(tris, kind, floor_z, position, velocity);
        let recorded = path.push(position);
        let marked = match m.hit {
            Some(at) => recorded.push(at),
            None => recorded,
        };
        if !m.stop {
            lemma_fuse_ends_flight(tris, kind, floor_z, m.position, m.velocity, done + 1, marked);
        }
    }
}

/// Through the void nothing is hit.
pub proof fn lemma_void_has_no_hit(from: Vector, to: Vector)
    ensures
        trace(Seq::<Triangle>::empty(), from, to) is None,
{
    if reachable(from) && reachable(to) {
        lemma_nothing_to_hit(grid_of(from), grid_of(to), CAPSULE_RADIUS as int);
    }
}

/// A flight through the void records one point a tick, and every point
/// after the first lies above the drop below the floor: once the object
/// has fallen out, the flight is over. With a fuse it records no more
/// points than the fuse has ticks.
pub proof fn lemma_free_flight(
    kind: ActiveGrenadeType,
    floor_z: int,
    position: Vector,
    velocity: Vector,
    done: int,
    path: Seq<Vector>,
)
    requires
        0 <= done <= MAX_STEPS,
    ensures
        ({
            let out = flight(
                Seq::<Triangle>::empty(),
                kind,
                floor_z,
                position,
                velocity,
                done,
                path,
            );
            &&& out.len() <= path.len() + (MAX_STEPS - done)
            &&& kind.fuse() is Some && done < kind.fuse()->0 ==> out.len() <= path.len() + (
            kind.fuse()->0 - done)
            &&& forall|i: int| path.len() < i < out.len() ==> !fell_out(#[trigger] out[i], floor_z)
            &&& forall|i: int| 0 <= i < path.len() ==> #[trigger] out[i] == path[i]
            &&& done < MAX_STEPS ==> out.len() > path.len() && out[path.len() as int] == position
        }),
    decreases MAX_STEPS - done,
{
    let tris = Seq::<Triangle>::empty();
    if done < MAX_STEPS && !kind.detonates(done + 1) {
        let v = fallen(velocity);
        let next = plus(position, v);
        lemma_void_has_no_hit(position, next);
        let m = tick(tris, kind, floor_z, position, velocity);
        let recorded = path.push(position);
        if !m.stop {
            lemma_free_flight(kind, floor_z, m.position, m.velocity, done + 1, recorded);
            let out = flight(tris, kind, floor_z, position, velocity, done, path);
            assert forall|i: int| path.len() < i < out.len() implies !fell_out(
                #[trigger] out[i],
                floor_z,
            ) by {
                if i == path.len() + 1 {
                    assert(out[i] == m.position);
                }
            }
        }
    }
}

/// How strongly an object is thrown, in hundredths: fully by the first
/// trigger, weakly by the second, in between by both, and not at all
/// without either.
pub open spec fn strength_of(first: bool, second: bool) -> Option<u8> {
    if first && second {
        Some(70u8)
    } else if second {
        Some(39u8)
    } else if first {
        Some(100u8)
    } else {
        None
    }
}

/// How strongly an object is thrown, in hundredths.
pub fn throw_strength(first: bool, second: bool) -> (strength: Option<u8>)
    ensures
        strength == strength_of(first, second),
{
    if first && second {
        Some(70)
    } else if second {
        Some(39)
    } else if first {
        Some(100)
    } else {
        None
    }
}

/// What a path was computed for.
#[derive(Clone, Copy, PartialEq, Eq, Structural, Debug)]
pub struct TrajectoryState {
    /// Where the object is thrown from, in fine units.
    pub position: FinePoint,
    /// How it is thrown, in grid units a second.
    pub velocity: Wide,
    /// How strongly, in hundredths.
    pub throw_strength: u8,
    /// The number of the thrown object's kind of weapon.
    pub weapon_id: u16,
}

/// The greatest squared distance, in fine units, between two positions
/// that count as the same: a hundredth of a squared world unit.
pub const SAME_PLACE: i64 = 10485;

/// The greatest squared difference, in grid units a second, between two
/// velocities that count as the same: a hundredth of a squared world unit
/// a second.
pub const SAME_SPEED: i64 = 2;

/// The squared distance between two positions.
pub open spec fn distance_squared(a: Vector, b: Vector) -> int {
    a.minus(b).dot(a.minus(b))
}

impl TrajectoryState {
    /// The two states are so close that a path computed for one serves
    /// for the other: the same weapon, strengths no more than a hundredth
    /// apart, and positions and velocities within a tenth of a world unit.
    pub open spec fn similar(self, other: TrajectoryState) -> bool {
        &&& self.weapon_id == other.weapon_id
        &&& -1 <= self.throw_strength - other.throw_strength <= 1
        &&& distance_squared(self.position@, other.position@) <= SAME_PLACE
        &&& distance_squared(self.velocity@, other.velocity@) <= SAME_SPEED
    }

    /// Whether a path computed for one state serves for the other.
    pub fn is_similar(&self, other: &TrajectoryState) -> (same: bool)
        ensures
            same == self.similar(*other),
    {
        if self.weapon_id != other.weapon_id {
            return false;
        }
        let gap: i16 = self.throw_strength as i16 - other.throw_strength as i16;
        if gap > 1 || gap < -1 {
            return false;
        }
        close(
            self.position.x,
            self.position.y,
            self.position.z,
            other.position.x,
            other.position.y,
            other.position.z,
            SAME_PLACE,
        ) && close(
            self.velocity.x,
            self.velocity.y,
            self.velocity.z,
            other.velocity.x,
            other.velocity.y,
            other.velocity.z,
            SAME_SPEED,
        )
    }
}

/// Whether two points are no farther apart than the root of `most`.
fn close(ax: i64, ay: i64, az: i64, bx: i64, by: i64, bz: i64, most: i64) -> (yes: bool)
    requires
        0 <= most <= 1_000_000,
    ensures
        yes == ((ax - bx) * (ax - bx) + (ay - by) * (ay - by) + (az - bz) * (az - bz) <= most),
{
    let dx: i128 = ax as i128 - bx as i128;
    let dy: i128 = ay as i128 - by as i128;
    let dz: i128 = az as i128 - bz as i128;
    proof {
        assert(dx * dx >= 0 && dy * dy >= 0 && dz * dz >= 0) by (nonlinear_arith);
        assert(dx > 1000 || dx < -1000 ==> dx * dx > 1_000_000) by (nonlinear_arith);
        assert(dy > 1000 || dy < -1000 ==> dy * dy > 1_000_000) by (nonlinear_arith);
        assert(dz > 1000 || dz < -1000 ==> dz * dz > 1_000_000) by (nonlinear_arith);
    }
    if dx > 1000 || dx < -1000 || dy > 1000 || dy < -1000 || dz > 1000 || dz < -1000 {
        return false;
    }
    proof {
        lemma_mul_bounds(dx as int, dx as int, 1000, 1000);
        lemma_mul_bounds(dy as int, dy as int, 1000, 1000);
        lemma_mul_bounds(dz as int, dz as int, 1000, 1000);
    }
    dx * dx + dy * dy + dz * dz <= most as i128
}

/// A throw as it is at one moment.
#[derive(Clone, Copy, Debug)]
pub struct Throw {
    pub state: TrajectoryState,
    pub kind: ActiveGrenadeType,
    /// The height of the floor that the thrower stands on, in fine units.
    pub floor_z: i64,
}

impl Throw {
    /// The throw starts within the limits of a flight.
    pub open spec fn in_limits(self) -> bool {
        &&& self.state.position@.within(FINE_LIMIT as int)
        &&& self.state.velocity@.within(SPEED_LIMIT as int)
        &&& -FINE_LIMIT <= self.floor_z <= FINE_LIMIT
    }

    /// Whether the throw starts within the limits of a flight.
    pub fn is_in_limits(&self) -> (ok: bool)
        ensures
            ok == self.in_limits(),
    {
        let p = &self.state.position;
        let v = &self.state.velocity;
        -FINE_LIMIT <= p.x && p.x <= FINE_LIMIT && -FINE_LIMIT <= p.y && p.y <= FINE_LIMIT
            && -FINE_LIMIT <= p.z && p.z <= FINE_LIMIT && -SPEED_LIMIT <= v.x && v.x <= SPEED_LIMIT
            && -SPEED_LIMIT <= v.y && v.y <= SPEED_LIMIT && -SPEED_LIMIT <= v.z && v.z
            <= SPEED_LIMIT && -FINE_LIMIT <= self.floor_z && self.floor_z <= FINE_LIMIT
    }
}

/// What the player has in hand at one moment.
#[derive(Clone, Copy, Debug)]
pub enum Hand {
    /// Nothing that is thrown, or nothing that is known.
    Empty,
    /// An object of this kind, which is not being thrown.
    Holding(ActiveGrenadeType),
    /// An object that is being thrown.
    Throwing(Throw),
}

/// What an update did to the path.
#[derive(Clone, Copy, PartialEq, Eq, Structural, Debug)]
pub enum Refresh {
    /// Nothing is thrown, or not so that a flight can start from it: there
    /// is no path now.
    Cleared,
    /// The throw is the one that the path was computed for: the path
    /// stays.
    Reused,
    /// The path was computed anew.
    Recomputed,
}

/// The predicted path of the object in hand, kept from update to update
/// for as long as the throw stays the same.
pub struct GrenadeTrajectory {
    pub trajectory: Option<Vec<FinePoint>>,
    pub active_type: ActiveGrenadeType,
    pub map_mesh: Option<MapMesh>,
    /// The name of the level that was last asked for.
    pub current_map_name: Option<String>,
    pub last_calc_state: Option<TrajectoryState>,
}

/// The name of a level as a text, where there is one.
pub open spec fn name_of(name: Option<String>) -> Option<Seq<char>> {
    match name {
        Some(n) => Some(n@),
        None => None,
    }
}

/// The level whose mesh is to be loaded now, if any.
///
/// The level is the one selected, or with `Auto` selected the one that is
/// played; where that is not known and no level was ever asked for, it is
/// `de_mirage`. Nothing is loaded for the level that was asked for last,
/// nor for the name `<empty>`.
pub open spec fn wanted_map(
    selected: Seq<char>,
    played: Option<Seq<char>>,
    current: Option<Seq<char>>,
) -> Option<Seq<char>> {
    let target = if selected != "Auto"@ {
        Some(selected)
    } else {
        played
    };
    let chosen = if target is None && current is None {
        Some("de_mirage"@)
    } else {
        target
    };
    match chosen {
        Some(name) => if name != "<empty>"@ && current != Some(name) {
            Some(name)
        } else {
            None
        },
        None => None,
    }
}

impl GrenadeTrajectory {
    /// The mesh, where there is one, is a hierarchy over triangles on the
    /// grid.
    pub open spec fn well_formed(self) -> bool {
        self.map_mesh is Some ==> self.map_mesh->0.well_formed() && self.map_mesh->0.in_grid()
    }

    /// The triangles of the level; none where no mesh is loaded.
    pub open spec fn triangles(self) -> Seq<Triangle> {
        match self.map_mesh {
            Some(m) => m.triangles@,
            None => Seq::empty(),
        }
    }

    /// The update for `throw` can keep the path that there is.
    pub open spec fn can_reuse(self, throw: Throw) -> bool {
        &&& self.trajectory is Some
        &&& self.last_calc_state is Some
        &&& self.last_calc_state->0.similar(throw.state)
    }

    /// Nothing in hand, no path and no mesh.
    pub fn new() -> (out: GrenadeTrajectory)
        ensures
            out.trajectory is None,
            out.active_type == ActiveGrenadeType::Unknown,
            out.map_mesh is None,
            out.current_map_name is None,
            out.last_calc_state is None,
            out.well_formed(),
    {
        GrenadeTrajectory {
            trajectory: None,
            active_type: ActiveGrenadeType::Unknown,
            map_mesh: None,
            current_map_name: None,
            last_calc_state: None,
        }
    }

    /// Says which level's mesh is to be loaded now, if any, and remembers
    /// that it was asked for. `selected` is the level that the settings
    /// name, or `Auto`; `played` is the level that is played, where that
    /// is known.
    pub fn select_map(&mut self, selected: &str, played: Option<&str>) -> (load: Option<String>)
        ensures
            name_of(load) == wanted_map(
                selected@,
                match played {
                    Some(p) => Some(p@),
                    None => None,
                },
                name_of(old(self).current_map_name),
            ),
            load is Some ==> final(self).current_map_name == load,
            load is None ==> final(self).current_map_name == old(self).current_map_name,
            final(self).trajectory == old(self).trajectory,
            final(self).active_type == old(self).active_type,
            final(self).map_mesh == old(self).map_mesh,
            final(self).last_calc_state == old(self).last_calc_state,
    {
        let target: Option<&str> = if !same(selected, "Auto") {
            Some(selected)
        } else {
            played
        };
        let chosen: &str = match target {
            Some(name) => name,
            None => {
                if self.current_map_name.is_none() {
                    "de_mirage"
                } else {
                    return None;
                }
            },
        };
        if same(chosen, "<empty>") {
            return None;
        }
        let known = match &self.current_map_name {
            Some(current) => same(current.as_str(), chosen),
            None => false,
        };
        if known {
            return None;
        }
        let name = chosen.to_owned();
        self.current_map_name = Some(name.clone());
        Some(name)
    }

    /// Takes the mesh of a level, or none. A mesh with a triangle off the
    /// grid is not taken, and the result says so.
    pub fn set_map(&mut self, mesh: Option<MapMesh>) -> (taken: bool)
        requires
            mesh is Some ==> mesh->0.well_formed(),
        ensures
            final(self).well_formed(),
            final(self).trajectory == old(self).trajectory,
            final(self).active_type == old(self).active_type,
            final(self).current_map_name == old(self).current_map_name,
            final(self).last_calc_state == old(self).last_calc_state,
            taken <==> (mesh is Some ==> mesh->0.in_grid()),
            taken ==> final(self).map_mesh == mesh,
            !taken ==> final(self).map_mesh is None,
    {
        match mesh {
            Some(m) => {
                if m.fits_grid() {
                    self.map_mesh = Some(m);
                    true
                } else {
                    self.map_mesh = None;
                    false
                }
            },
            None => {
                self.map_mesh = None;
                true
            },
        }
    }

    /// Brings the path up to date with what the player has in hand.
    ///
    /// Without a throw, or with one that starts beyond the limits of a
    /// flight, there is no path. For a throw like the one that the path
    /// was computed for, the path stays as it is. For any other the path
    /// is computed anew and the throw remembered.
    pub fn update(&mut self, hand: Hand) -> (did: Refresh)
        requires
            old(self).well_formed(),
        ensures
            final(self).well_formed(),
            final(self).map_mesh == old(self).map_mesh,
            final(self).current_map_name == old(self).current_map_name,
            match hand {
                Hand::Empty => {
                    &&& did == Refresh::Cleared
                    &&& final(self).trajectory is None
                    &&& final(self).active_type == old(self).active_type
                    &&& final(self).last_calc_state == old(self).last_calc_state
                },
                Hand::Holding(kind) => {
                    &&& did == Refresh::Cleared
                    &&& final(self).trajectory is None
                    &&& final(self).active_type == kind
                    &&& final(self).last_calc_state == old(self).last_calc_state
                },
                Hand::Throwing(t) => if !t.in_limits() {
                    &&& did == Refresh::Cleared
                    &&& final(self).trajectory is None
                    &&& final(self).active_type == t.kind
                    &&& final(self).last_calc_state == old(self).last_calc_state
                } else if old(self).can_reuse(t) {
                    &&& did == Refresh::Reused
                    &&& final(self).trajectory == old(self).trajectory
                    &&& final(self).active_type == t.kind
                    &&& final(self).last_calc_state == old(self).last_calc_state
                } else {
                    &&& did == Refresh::Recomputed
                    &&& final(self).trajectory is Some
                    &&& places(final(self).trajectory->0@) == trajectory_of(
                        old(self).triangles(),
                        t.kind,
                        t.floor_z as int,
                        t.state.position@,
                        t.state.velocity@,
                    )
                    &&& final(self).active_type == t.kind
                    &&& final(self).last_calc_state == Some(t.state)
                },
            },
    {
        let t = match hand {
            Hand::Throwing(t) => t,
            Hand::Holding(kind) => {
                self.active_type = kind;
                self.trajectory = None;
                return Refresh::Cleared;
            },
            Hand::Empty => {
                self.trajectory = None;
                return Refresh::Cleared;
            },
        };
        self.active_type = t.kind;
        if !t.is_in_limits() {
            self.trajectory = None;
            return Refresh::Cleared;
        }
        let known = match &self.last_calc_state {
            Some(last) => last.is_similar(&t.state) && self.trajectory.is_some(),
            None => false,
        };
        if known {
            return Refresh::Reused;
        }
        let path = simulate(
            self.map_mesh.as_ref(),
            t.kind,
            t.floor_z,
            t.state.position,
            t.state.velocity,
        );
        self.trajectory = Some(path);
        self.last_calc_state = Some(t.state);
        Refresh::Recomputed
    }
}

/// An update for the throw that the path was just computed or kept for
/// keeps the path: what is asked twice is answered once.
pub proof fn lemma_second_update_reuses(after_first: GrenadeTrajectory, throw: Throw)
    requires
        after_first.trajectory is Some,
        after_first.last_calc_state == Some(throw.state),
    ensures
        after_first.can_reuse(throw),
{
    let s = throw.state;
    assert(distance_squared(s.position@, s.position@) == 0) by (nonlinear_arith)
        requires
            distance_squared(s.position@, s.position@) == (s.position@.x - s.position@.x) * (
            s.position@.x - s.position@.x) + (s.position@.y - s.position@.y) * (s.position@.y
                - s.position@.y) + (s.position@.z - s.position@.z) * (s.position@.z
                - s.position@.z),
    ;
    assert(distance_squared(s.velocity@, s.velocity@) == 0) by (nonlinear_arith)
        requires
            distance_squared(s.velocity@, s.velocity@) == (s.velocity@.x - s.velocity@.x) * (
            s.velocity@.x - s.velocity@.x) + (s.velocity@.y - s.velocity@.y) * (s.velocity@.y
                - s.velocity@.y) + (s.velocity@.z - s.velocity@.z) * (s.velocity@.z
                - s.velocity@.z),
    ;
}

} // verus!
