use controller::enhancements::grid::Wide;
use controller::enhancements::geometry::{Point, Triangle};
use controller::enhancements::grenade_trajectory::{
    bounce, simulate, throw_strength, trace_ray, ActiveGrenadeType, FinePoint, GrenadeTrajectory,
    Hand, Refresh, Throw, TrajectoryState,
};
use controller::enhancements::map_loader::MapMesh;
use controller::settings::esp::Color;

const FINE: i64 = 1024; // fine units in a world unit

fn ground(z: i32) -> MapMesh {
    let l = 100_000;
    let mesh = MapMesh::from_triangles(vec![
        Triangle::new(Point::new(-l, -l, z), Point::new(l, -l, z), Point::new(l, l, z), 0),
        Triangle::new(Point::new(-l, -l, z), Point::new(l, l, z), Point::new(-l, l, z), 1),
    ]);
    assert!(mesh.fits_grid());
    mesh
}

fn fp(x: i64, y: i64, z: i64) -> FinePoint {
    FinePoint { x, y, z }
}

fn wide(x: i64, y: i64, z: i64) -> Wide {
    Wide { x, y, z }
}

fn throw_from(z: i64, velocity: Wide, kind: ActiveGrenadeType) -> Throw {
    Throw {
        state: TrajectoryState { position: fp(0, 0, z), velocity, throw_strength: 100, weapon_id: 45 },
        kind,
        floor_z: 0,
    }
}

#[test]
fn fuses_are_counted_in_ticks() {
    assert_eq!(ActiveGrenadeType::HE.get_detonation_time(), Some(71));
    assert_eq!(ActiveGrenadeType::Flash.get_detonation_time(), Some(71));
    assert_eq!(ActiveGrenadeType::Molotov.get_detonation_time(), Some(224));
    assert_eq!(ActiveGrenadeType::Smoke.get_detonation_time(), None);
    assert_eq!(ActiveGrenadeType::Decoy.get_detonation_time(), None);
    assert_eq!(ActiveGrenadeType::Unknown.get_detonation_time(), None);
}

#[test]
fn landing_marks_have_their_colours() {
    assert_eq!(ActiveGrenadeType::Smoke.get_visuals(), (Color::from_u8([127, 127, 153, 102]), 144));
    assert_eq!(ActiveGrenadeType::Molotov.get_visuals(), (Color::from_u8([255, 76, 0, 102]), 150));
    assert_eq!(ActiveGrenadeType::HE.get_visuals(), (Color::from_u8([255, 25, 25, 102]), 144));
    assert_eq!(ActiveGrenadeType::Flash.get_visuals(), (Color::from_u8([255, 255, 255, 153]), 30));
    assert_eq!(ActiveGrenadeType::Decoy.get_visuals(), (Color::from_u8([51, 255, 51, 153]), 15));
    assert_eq!(ActiveGrenadeType::Unknown.get_visuals(), (Color::from_u8([255, 255, 255, 102]), 10));
}

#[test]
fn strength_follows_the_triggers() {
    assert_eq!(throw_strength(true, false), Some(100));
    assert_eq!(throw_strength(false, true), Some(39));
    assert_eq!(throw_strength(true, true), Some(70));
    assert_eq!(throw_strength(false, false), None);
}

#[test]
fn bounce_turns_back_and_slows() {
    // straight into a floor: 45 hundredths come back
    assert_eq!(bounce(&wide(0, 0, -1000), &wide(0, 0, 5)), wide(0, 0, 450));
    // along the floor 40 hundredths are kept
    assert_eq!(bounce(&wide(1000, -500, -1000), &wide(0, 0, 7)), wide(400, -200, 450));
    // off a wall whose normal has no length one
    assert_eq!(bounce(&wide(-2000, 100, 300), &wide(30, 0, 0)), wide(900, 40, 120));
    // off a slope of 45 degrees: straight down becomes sideways and down
    assert_eq!(bounce(&wide(0, 0, -1000), &wide(1, 0, 1)), wide(425, 0, 25));
    // rounding is toward zero
    assert_eq!(bounce(&wide(3, 0, -3), &wide(0, 0, 1)), wide(1, 0, 1));
    assert_eq!(bounce(&wide(-3, 0, 3), &wide(0, 0, 1)), wide(-1, 0, -1));
}

#[test]
fn free_fall_follows_the_formula_and_ends_below_the_floor() {
    let path = simulate(None, ActiveGrenadeType::Smoke, 0, fp(0, 0, 0), wide(64, -32, 0));
    // after k ticks the object has fallen 100 k (k + 1) fine units
    assert_eq!(path.len(), 101);
    for (k, p) in path.iter().enumerate() {
        let k = k as i64;
        assert_eq!(*p, fp(64 * k, -32 * k, -100 * k * (k + 1)));
    }
    // the next position would be the first more than 1000 world units down
    assert!(-100 * 100 * 101 >= -1000 * FINE);
    assert!(-100 * 101 * 102 < -1000 * FINE);
}

#[test]
fn flight_through_the_void_stops_at_the_cap() {
    // thrown up so hard that it is still above the drop after 130 ticks
    let path = simulate(None, ActiveGrenadeType::Decoy, 0, fp(5, 6, 7), wide(0, 0, 13_100));
    assert_eq!(path.len(), 130);
    assert_eq!(path[129], fp(5, 6, 7 + 129 * 13_100 - 100 * 129 * 130));
}

#[test]
fn fuse_ends_the_flight() {
    let up = wide(100, 0, 20_000);
    let he = simulate(None, ActiveGrenadeType::HE, 0, fp(0, 0, 0), up);
    assert_eq!(he.len(), 71);
    let flash = simulate(None, ActiveGrenadeType::Flash, 0, fp(0, 0, 0), up);
    assert_eq!(flash, he);
    // the one that burns has a fuse longer than the cap
    let fire = simulate(None, ActiveGrenadeType::Molotov, 0, fp(0, 0, 0), up);
    assert_eq!(fire.len(), 130);
    assert_eq!(&fire[..71], &he[..]);
    // with geometry in the way a fuse still bounds the path
    let mesh = ground(0);
    let bouncing = simulate(Some(&mesh), ActiveGrenadeType::HE, 0, fp(0, 0, 200 * FINE), wide(300, 0, 0));
    assert!(bouncing.len() <= 2 * 71 - 1);
    // 71 ticks and the one hit after 45 of them
    assert_eq!(bouncing.len(), 72);
    // from lower down it hits the ground twice before the fuse has burnt
    let twice = simulate(Some(&mesh), ActiveGrenadeType::HE, 0, fp(0, 0, 100 * FINE), wide(300, 0, 0));
    assert_eq!(twice.len(), 73);
}

#[test]
fn drop_onto_the_ground_bounces() {
    let mesh = ground(0);
    // from 500 world units, straight down
    let path = simulate(Some(&mesh), ActiveGrenadeType::Smoke, 0, fp(0, 0, 500 * FINE), wide(0, 0, 0));
    let first_hit = path.iter().position(|p| p.z.abs() <= 64).expect("the ground is hit");
    // it fell all the way before
    for k in 1..first_hit {
        assert!(path[k].z < path[k - 1].z);
        assert!(path[k].z > 0);
    }
    // 500 = 400 t^2: a little over 71 ticks
    assert_eq!(first_hit, 72);
    // and rises after: the vertical velocity has changed its sign
    assert!(path[first_hit + 1].z > path[first_hit].z);
    assert!(path[first_hit + 2].z > path[first_hit + 1].z);
    // it never leaves the vertical line, and never sinks into the ground
    for p in &path {
        assert_eq!((p.x, p.y), (0, 0));
        assert!(p.z >= 0);
    }
}

#[test]
fn short_drop_comes_to_rest_on_the_ground() {
    let mesh = ground(0);
    let path = simulate(Some(&mesh), ActiveGrenadeType::Smoke, 0, fp(0, 0, 50 * FINE), wide(0, 0, 0));
    let last = path[path.len() - 1];
    // the flight ended on a hit that left the object slow
    assert!(last.z.abs() <= 64, "final height {}", last.z);
    assert!(path.len() < 130);
    let hits = path.iter().filter(|p| p.z.abs() <= 64).count();
    assert!(hits >= 3, "{} hits", hits);
}

#[test]
fn burning_object_stays_on_the_floor_but_bounces_off_a_wall() {
    let mesh = ground(0);
    let start = fp(0, 0, 30 * FINE);
    let fire = simulate(Some(&mesh), ActiveGrenadeType::Molotov, 0, start, wide(500, 0, 0));
    let smoke = simulate(Some(&mesh), ActiveGrenadeType::Smoke, 0, start, wide(500, 0, 0));
    let landed = fire[fire.len() - 1];
    // the capsule is two world units thick: its side touches down first
    assert!(0 <= landed.z && landed.z <= 2 * FINE);
    // up to the landing the two fly alike, then only the other goes on
    assert_eq!(&smoke[..fire.len()], &fire[..]);
    assert!(smoke.len() > fire.len());

    // a wall across the way, facing the thrower
    let wall = MapMesh::from_triangles(vec![Triangle::new(
        Point::new(1600, -8000, -8000),
        Point::new(1600, 0, 16000),
        Point::new(1600, 8000, -8000),
        0,
    )]);
    let at_wall = simulate(Some(&wall), ActiveGrenadeType::Molotov, 0, fp(0, 0, 0), wide(16_000, 0, 3_000));
    let hit = at_wall.iter().position(|p| (p.x - 1600 * 64).abs() <= 64 * 33).expect("the wall is hit");
    assert!(at_wall.len() > hit + 2);
    assert!(at_wall[hit + 2].x < at_wall[hit + 1].x);
}

#[test]
fn tracing_reports_the_triangle_and_the_place() {
    let mesh = ground(0);
    let hit = trace_ray(Some(&mesh), &fp(640, 640, 6400), &fp(640, 640, -6400)).unwrap();
    assert_eq!(hit.place.num * 2, hit.place.den);
    assert!(mesh.triangles[hit.triangle as usize].source <= 1);
    assert_eq!(trace_ray(None, &fp(640, 640, 6400), &fp(640, 640, -6400)), None);
    assert_eq!(trace_ray(Some(&mesh), &fp(640, 640, 6400), &fp(640, 640, 64)), None);
    // beyond the grid nothing is traced
    let far = 64 * 600_000;
    assert_eq!(trace_ray(Some(&mesh), &fp(far, 0, 6400), &fp(far, 0, -6400)), None);
}

#[test]
fn same_throw_keeps_the_path() {
    let mut t = GrenadeTrajectory::new();
    assert!(t.set_map(Some(ground(0))));
    let throw = throw_from(200 * FINE, wide(4000, 0, 1000), ActiveGrenadeType::Smoke);
    assert_eq!(t.update(Hand::Throwing(throw)), Refresh::Recomputed);
    let first = t.trajectory.clone().unwrap();
    assert!(first.len() > 10);
    assert_eq!(t.update(Hand::Throwing(throw)), Refresh::Reused);
    assert_eq!(t.trajectory.as_ref(), Some(&first));

    // within the tolerance: 100 fine units and one grid unit a second off
    let mut near = throw;
    near.state.position.x += 100;
    near.state.velocity.y += 1;
    near.state.throw_strength = 99;
    assert!(throw.state.is_similar(&near.state));
    assert_eq!(t.update(Hand::Throwing(near)), Refresh::Reused);
    assert_eq!(t.trajectory.as_ref(), Some(&first));
    assert_eq!(t.last_calc_state, Some(throw.state));

    // a changed throw is not masked
    let mut moved = throw;
    moved.state.position.x += 103;
    assert!(!throw.state.is_similar(&moved.state));
    assert_eq!(t.update(Hand::Throwing(moved)), Refresh::Recomputed);
    assert_ne!(t.trajectory.as_ref(), Some(&first));
    assert_eq!(t.last_calc_state, Some(moved.state));
}

#[test]
fn similarity_has_its_limits() {
    let base = throw_from(0, wide(100, 100, 100), ActiveGrenadeType::HE).state;
    let mut other = base;
    other.weapon_id = 44;
    assert!(!base.is_similar(&other));
    other = base;
    other.throw_strength = 98;
    assert!(!base.is_similar(&other));
    other = base;
    other.velocity = wide(101, 101, 100);
    assert!(base.is_similar(&other));
    other.velocity = wide(101, 101, 101);
    assert!(!base.is_similar(&other));
    other = base;
    other.position = fp(60, 60, -57);
    // 3600 + 3600 + 3249 = 10449
    assert!(base.is_similar(&other));
    other.position = fp(60, 60, -58);
    // 3600 + 3600 + 3364 = 10564
    assert!(!base.is_similar(&other));
    other.position = fp(i64::MAX, i64::MIN, 0);
    assert!(!base.is_similar(&other));
}

#[test]
fn no_throw_means_no_path() {
    let mut t = GrenadeTrajectory::new();
    let throw = throw_from(0, wide(0, 0, 5000), ActiveGrenadeType::Flash);
    assert_eq!(t.update(Hand::Throwing(throw)), Refresh::Recomputed);
    assert_eq!(t.active_type, ActiveGrenadeType::Flash);
    assert_eq!(t.update(Hand::Empty), Refresh::Cleared);
    assert_eq!(t.trajectory, None);
    assert_eq!(t.active_type, ActiveGrenadeType::Flash);
    // held but not thrown: known by its kind, without a path
    assert_eq!(t.update(Hand::Holding(ActiveGrenadeType::Decoy)), Refresh::Cleared);
    assert_eq!(t.trajectory, None);
    assert_eq!(t.active_type, ActiveGrenadeType::Decoy);
    // the throw is taken up again from nothing
    assert_eq!(t.update(Hand::Throwing(throw)), Refresh::Recomputed);
    assert_eq!(t.trajectory.as_ref().map(|p| p.len()), Some(71));
}

#[test]
fn throw_beyond_the_limits_means_no_path() {
    let mut t = GrenadeTrajectory::new();
    let mut throw = throw_from(0, wide(131_073, 0, 0), ActiveGrenadeType::Smoke);
    assert!(!throw.is_in_limits());
    assert_eq!(t.update(Hand::Throwing(throw)), Refresh::Cleared);
    assert_eq!(t.trajectory, None);
    throw.state.velocity.x = 131_072;
    assert!(throw.is_in_limits());
    assert_eq!(t.update(Hand::Throwing(throw)), Refresh::Recomputed);
}

#[test]
fn mesh_off_the_grid_is_not_taken() {
    let far = MapMesh::from_triangles(vec![Triangle::new(
        Point::new(0, 0, 0),
        Point::new(600_000, 0, 0),
        Point::new(0, 600_000, 0),
        0,
    )]);
    let mut t = GrenadeTrajectory::new();
    assert!(!t.set_map(Some(far)));
    assert!(t.map_mesh.is_none());
    assert!(t.set_map(None));
}
