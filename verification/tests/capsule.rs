use controller::enhancements::grid::isqrt;
use controller::enhancements::geometry::{Point, Triangle};
use controller::enhancements::map_loader::MapMesh;

fn p(x: i32, y: i32, z: i32) -> Point {
    Point::new(x, y, z)
}

fn floor(z: i32, source: u32) -> Vec<Triangle> {
    vec![
        Triangle::new(p(-1000, -1000, z), p(1000, -1000, z), p(1000, 1000, z), source),
        Triangle::new(p(-1000, -1000, z), p(1000, 1000, z), p(-1000, 1000, z), source + 1),
    ]
}

#[test]
fn integer_square_root_rounds_down() {
    assert_eq!(isqrt(0), 0);
    assert_eq!(isqrt(1), 1);
    assert_eq!(isqrt(3), 1);
    assert_eq!(isqrt(4), 2);
    assert_eq!(isqrt(99), 9);
    assert_eq!(isqrt(100), 10);
    assert_eq!(isqrt(1u128 << 80), 1u64 << 40);
    assert_eq!(isqrt((1u128 << 80) - 1), (1u64 << 40) - 1);
    assert_eq!(isqrt((1u128 << 126) - 1), (1u64 << 63) - 1);
}

#[test]
fn capsule_of_radius_zero_is_the_plain_segment() {
    let mut tris = floor(0, 0);
    tris.extend(floor(40, 2));
    tris.push(Triangle::new(p(0, 0, 100), p(50, 0, 130), p(0, 50, 160), 9));
    let mesh = MapMesh::from_triangles(tris);
    let cases = [
        (p(10, 10, 500), p(10, 10, -500)),
        (p(-300, 200, 90), p(400, -100, -20)),
        (p(5, 5, 300), p(20, 20, 60)),
        (p(0, 0, -10), p(0, 0, 500)),
        (p(3, 3, 3), p(3, 3, 3)),
    ];
    for (a, b) in cases {
        assert_eq!(mesh.check_collision(a, b, 0), mesh.check_collision_ray(a, b));
    }
}

#[test]
fn capsule_hits_what_the_middle_segment_misses() {
    // a ledge that ends at x = 0; the middle segment falls past it at x = 10
    let ledge = vec![
        Triangle::new(p(-500, -500, 0), p(0, -500, 0), p(0, 500, 0), 0),
        Triangle::new(p(-500, -500, 0), p(0, 500, 0), p(-500, 500, 0), 1),
    ];
    let mesh = MapMesh::from_triangles(ledge);
    let start = p(10, 0, 100);
    let end = p(10, 0, -100);
    assert_eq!(mesh.check_collision_ray(start, end), None);
    assert_eq!(mesh.check_collision(start, end, 5), None);
    let hit = mesh.check_collision(start, end, 32).unwrap();
    // reported on the middle segment, half way down
    assert_eq!(hit.place.num * 2, hit.place.den);
    assert_eq!(hit.position, p(10, 0, 0));
}

#[test]
fn capsule_reports_the_earliest_of_its_segments() {
    // a step: the floor is higher for x < 0
    let mut tris = floor(0, 0);
    tris.push(Triangle::new(p(-500, -500, 50), p(0, -500, 50), p(0, 500, 50), 7));
    let mesh = MapMesh::from_triangles(tris);
    let start = p(20, 0, 100);
    let end = p(20, 0, -100);
    let thin = mesh.check_collision_ray(start, end).unwrap();
    assert_eq!(thin.position, p(20, 0, 0));
    let wide = mesh.check_collision(start, end, 32).unwrap();
    assert_eq!(mesh.triangles[wide.triangle as usize].source, 7);
    assert_eq!(wide.position, p(20, 0, 50));
    assert_eq!(wide.place.num * 4, wide.place.den);
}

#[test]
fn capsule_along_a_slanted_path_reaches_sideways() {
    // a wall in the plane y = 0 facing towards negative y, a little off the path
    let wall = vec![Triangle::new(p(100, 0, -500), p(600, 0, 0), p(100, 0, 500), 0)];
    let mesh = MapMesh::from_triangles(wall);
    // travelling in +y at x = 90: the segment passes the wall's edge at x = 100
    let start = p(90, -200, 0);
    let end = p(90, 200, 0);
    assert_eq!(mesh.check_collision_ray(start, end), None);
    let hit = mesh.check_collision(start, end, 32).unwrap();
    assert_eq!(hit.place.num * 2, hit.place.den);
    assert_eq!(hit.position, p(90, 0, 0));
}

#[test]
fn capsule_that_does_not_move_hits_nothing() {
    let mesh = MapMesh::from_triangles(floor(0, 0));
    assert_eq!(mesh.check_collision(p(0, 0, 0), p(0, 0, 0), 32), None);
    assert_eq!(mesh.check_collision(p(0, 0, 5), p(0, 0, 5), 32), None);
}

#[test]
fn reach_leaves_room_for_the_radius() {
    assert!(p(524256, 0, 0).is_in_reach(32));
    assert!(!p(524257, 0, 0).is_in_reach(32));
    assert!(p(524288, -524288, 0).is_in_reach(0));
}
