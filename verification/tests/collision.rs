use controller::enhancements::collision::{segment_hits, Fraction, Hit};
use controller::enhancements::geometry::{Aabb, Point, Triangle};
use controller::enhancements::map_loader::MapMesh;

fn p(x: i32, y: i32, z: i32) -> Point {
    Point::new(x, y, z)
}

fn floor_triangle() -> Triangle {
    // winds so that the face normal points up
    Triangle::new(p(0, 0, 0), p(100, 0, 0), p(0, 100, 0), 7)
}

fn one() -> Fraction {
    Fraction { num: 1, den: 1 }
}

fn brute(tris: &[Triangle], start: &Point, end: &Point) -> Option<(usize, Fraction)> {
    let mut best: Option<(usize, Fraction)> = None;
    for (k, t) in tris.iter().enumerate() {
        if let Some(f) = segment_hits(t, start, end) {
            let closer = match &best {
                None => true,
                Some((_, b)) => (f.num as i128) * (b.den as i128) < (b.num as i128) * (f.den as i128),
            };
            if closer {
                best = Some((k, f));
            }
        }
    }
    best
}

struct Lcg(u64);

impl Lcg {
    fn next(&mut self, span: i32) -> i32 {
        self.0 = self.0.wrapping_mul(6364136223846793005).wrapping_add(1442695040888963407);
        ((self.0 >> 33) % (2 * span as u64 + 1)) as i32 - span
    }
}

#[test]
fn box_test_accepts_a_segment_through_the_centre() {
    let b = Aabb { min: p(-10, -10, -10), max: p(10, 10, 10) };
    assert!(b.intersect(&p(-50, 0, 0), &p(50, 0, 0), &one()));
    assert!(b.intersect(&p(0, 0, 40), &p(0, 0, -40), &one()));
    // a segment that starts inside
    assert!(b.intersect(&p(0, 0, 0), &p(0, 90, 0), &one()));
    // touching a face counts
    assert!(b.intersect(&p(-50, 10, 0), &p(50, 10, 0), &one()));
}

#[test]
fn box_test_rejects_a_segment_that_passes_outside() {
    let b = Aabb { min: p(-10, -10, -10), max: p(10, 10, 10) };
    assert!(!b.intersect(&p(-50, 11, 0), &p(50, 11, 0), &one()));
    assert!(!b.intersect(&p(-50, 0, 0), &p(-20, 0, 0), &one()));
    // diagonal past a corner
    assert!(!b.intersect(&p(-30, 0, 0), &p(0, 30, 0), &one()));
}

#[test]
fn box_test_respects_the_bound() {
    let b = Aabb { min: p(40, -10, -10), max: p(60, 10, 10) };
    let start = p(0, 0, 0);
    let end = p(100, 0, 0);
    // the box is entered at 2/5 of the way
    assert!(b.intersect(&start, &end, &Fraction { num: 2, den: 5 }));
    assert!(!b.intersect(&start, &end, &Fraction { num: 39, den: 100 }));
}

#[test]
fn segment_from_the_front_hits_between_its_ends() {
    let t = floor_triangle();
    let hit = segment_hits(&t, &p(30, 30, 50), &p(30, 30, -50)).unwrap();
    assert!(hit.num > 0 && hit.num < hit.den);
    assert_eq!(hit.num * 2, hit.den);
}

#[test]
fn segment_from_behind_does_not_hit() {
    let t = floor_triangle();
    assert_eq!(segment_hits(&t, &p(30, 30, -50), &p(30, 30, 50)), None);
}

#[test]
fn segment_beside_the_triangle_or_short_of_it_does_not_hit() {
    let t = floor_triangle();
    assert_eq!(segment_hits(&t, &p(80, 80, 50), &p(80, 80, -50)), None);
    assert_eq!(segment_hits(&t, &p(30, 30, 50), &p(30, 30, 1)), None);
    // ending exactly on the plane is not strictly between the ends
    assert_eq!(segment_hits(&t, &p(30, 30, 50), &p(30, 30, 0)), None);
    // parallel to the plane
    assert_eq!(segment_hits(&t, &p(-30, 30, 0), &p(300, 30, 0)), None);
}

#[test]
fn ray_at_the_centroid_reports_the_triangle() {
    let t = Triangle::new(p(200, 40, 10), p(260, 45, 30), p(215, 130, 50), 3);
    let mesh = MapMesh::from_triangles(vec![t]);
    assert!(mesh.fits_grid());
    // the face normal of this winding has a positive z part: come from above
    let above = p(t.center.x - 20, t.center.y - 10, t.center.z + 300);
    let below = p(t.center.x + 20, t.center.y + 10, t.center.z - 300);
    let hit = mesh.check_collision_ray(above, below).unwrap();
    assert_eq!(hit.triangle, 0);
    assert!(hit.place.num > 0 && hit.place.num < hit.place.den);
    assert_eq!(mesh.triangles[hit.triangle as usize].source, 3);
    assert_eq!(mesh.check_collision_ray(below, above), None);
}

#[test]
fn empty_mesh_and_empty_segment_hit_nothing() {
    let empty = MapMesh::from_triangles(Vec::new());
    assert_eq!(empty.check_collision_ray(p(0, 0, 10), p(0, 0, -10)), None);
    let mesh = MapMesh::from_triangles(vec![floor_triangle()]);
    assert_eq!(mesh.check_collision_ray(p(30, 30, 0), p(30, 30, 0)), None);
    assert_eq!(mesh.check_collision_ray(p(30, 30, 5), p(30, 30, 5)), None);
}

#[test]
fn nearest_of_stacked_floors_is_reported() {
    let mut tris = Vec::new();
    for level in 0..20 {
        let z = level * 10;
        tris.push(Triangle::new(p(0, 0, z), p(100, 0, z), p(0, 100, z), level as u32));
    }
    let mesh = MapMesh::from_triangles(tris);
    let hit = mesh.check_collision_ray(p(20, 20, 500), p(20, 20, -500)).unwrap();
    assert_eq!(mesh.triangles[hit.triangle as usize].source, 19);
    assert_eq!(hit.position, p(20, 20, 190));
    assert_eq!(
        hit,
        Hit { triangle: hit.triangle, place: Fraction { num: hit.place.num, den: hit.place.den }, position: p(20, 20, 190) }
    );
    // 310 of 1000 down
    assert_eq!(hit.place.num * 100, hit.place.den * 31);
}

#[test]
fn hierarchy_answers_as_a_scan_of_all_triangles() {
    let mut rng = Lcg(99);
    let mut tris = Vec::new();
    for i in 0..600u32 {
        let (x, y, z) = (rng.next(4000), rng.next(4000), rng.next(400));
        let a = p(x, y, z);
        let b = p(x + rng.next(300), y + rng.next(300), z + rng.next(60));
        let c = p(x + rng.next(300), y + rng.next(300), z + rng.next(60));
        tris.push(Triangle::new(a, b, c, i));
    }
    let mesh = MapMesh::from_triangles(tris);
    assert!(mesh.fits_grid());
    let mut hits = 0;
    for _ in 0..400 {
        let start = p(rng.next(4000), rng.next(4000), rng.next(600));
        let end = p(rng.next(4000), rng.next(4000), rng.next(600));
        let expect = brute(&mesh.triangles, &start, &end);
        let got = mesh.check_collision_ray(start, end);
        match (expect, got) {
            (None, None) => {}
            (Some((k, f)), Some(h)) => {
                hits += 1;
                assert_eq!(h.triangle as usize, k);
                assert_eq!(h.place, f);
            }
            (e, g) => panic!("scan found {:?}, hierarchy found {:?}", e, g),
        }
    }
    assert!(hits > 20);
}

#[test]
fn grid_check_rejects_far_vertices() {
    let far = Triangle::new(p(0, 0, 0), p(524289, 0, 0), p(0, 1, 0), 0);
    assert!(!far.is_in_grid());
    assert!(!MapMesh::from_triangles(vec![far]).fits_grid());
    let edge = Triangle::new(p(0, 0, 0), p(524288, 0, 0), p(0, -524288, 0), 0);
    assert!(edge.is_in_grid());
}
