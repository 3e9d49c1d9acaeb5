use controller::enhancements::geometry::Point;
use controller::enhancements::player::model_renderer::{
    fallback_source, find_bone, light_of, normalize_bone_name, points_fit_grid, screen_bounds,
    FallbackSource, JointSource, MissingBones, ModelError, PrimitiveParts, RenderTri, ScreenBox,
    ScreenPoint, Shading, SkinnedMesh,
};
use controller::enhancements::grid::{Shift, Wide};
use controller::settings::esp::Color;

fn names(list: &[&str]) -> Vec<String> {
    list.iter().map(|s| s.to_string()).collect()
}

fn parts(count: usize, indices: Option<Vec<u32>>) -> PrimitiveParts {
    PrimitiveParts {
        positions: Some(count),
        normals: Some(count),
        joints: Some(count),
        weights: Some(count),
        indices,
    }
}

fn sp(x: i32, y: i32) -> ScreenPoint {
    ScreenPoint { x, y }
}

#[test]
fn known_bones_get_the_skeletons_names() {
    assert_eq!(normalize_bone_name("Hips"), "pelvis");
    assert_eq!(normalize_bone_name("pelvis"), "pelvis");
    assert_eq!(normalize_bone_name("Spine"), "spine_1");
    assert_eq!(normalize_bone_name("Spine1"), "spine_1");
    assert_eq!(normalize_bone_name("spine_01"), "spine_1");
    assert_eq!(normalize_bone_name("Spine2"), "spine_2");
    assert_eq!(normalize_bone_name("spine_03"), "spine_3");
    assert_eq!(normalize_bone_name("Neck"), "neck_0");
    assert_eq!(normalize_bone_name("neck1"), "neck_0");
    assert_eq!(normalize_bone_name("HEAD"), "head_0");
    assert_eq!(normalize_bone_name("LeftArm"), "arm_upper_L");
    assert_eq!(normalize_bone_name("l_upperarm"), "arm_upper_L");
    assert_eq!(normalize_bone_name("forearm_l"), "arm_lower_L");
    assert_eq!(normalize_bone_name("LeftHand"), "hand_L");
    assert_eq!(normalize_bone_name("RightArm"), "arm_upper_R");
    assert_eq!(normalize_bone_name("R_Forearm"), "arm_lower_R");
    assert_eq!(normalize_bone_name("hand_r"), "hand_R");
    assert_eq!(normalize_bone_name("LeftUpLeg"), "leg_upper_L");
    assert_eq!(normalize_bone_name("l_calf"), "leg_lower_L");
    assert_eq!(normalize_bone_name("LeftFoot"), "ankle_L");
    assert_eq!(normalize_bone_name("thigh_r"), "leg_upper_R");
    assert_eq!(normalize_bone_name("RightLeg"), "leg_lower_R");
    assert_eq!(normalize_bone_name("r_foot"), "ankle_R");
}

#[test]
fn prefixes_of_rigging_tools_are_dropped() {
    assert_eq!(normalize_bone_name("mixamorig:Hips"), "pelvis");
    assert_eq!(normalize_bone_name("mixamorig:LeftForeArm"), "arm_lower_L");
    assert_eq!(normalize_bone_name("ValveBiped.Bip01_Head"), "head_0");
    assert_eq!(normalize_bone_name("ValveBiped.Bip01_L_Hand"), "hand_L");
    assert_eq!(normalize_bone_name("Bip01_R_Thigh"), "leg_upper_R");
    assert_eq!(normalize_bone_name("bip01_Spine2"), "spine_2");
    assert_eq!(normalize_bone_name("ValveBiped.weapon_bone"), "weapon_bone");
}

#[test]
fn unknown_bones_pass_in_lower_case() {
    assert_eq!(normalize_bone_name("Tail_03"), "tail_03");
    assert_eq!(normalize_bone_name("mixamorig:LeftToeBase"), "lefttoebase");
    assert_eq!(normalize_bone_name(""), "");
    assert_eq!(normalize_bone_name("arm_upper_L"), "arm_upper_l");
    // a prefix in the middle is no prefix
    assert_eq!(normalize_bone_name("xbip01_head"), "xbip01_head");
}

#[test]
fn skin_names_its_joints_as_the_skeleton_does() {
    let raw = vec![Some("mixamorig:Hips".to_string()), None, Some("Tail".to_string())];
    let mesh = SkinnedMesh::for_skin(Some(&raw), 3).unwrap();
    assert_eq!(mesh.joint_names, vec![Some("pelvis".to_string()), None, Some("tail".to_string())]);
    assert_eq!(mesh.bind_count, 3);
    assert_eq!(mesh.vertex_count, 0);
    assert!(mesh.indices.is_empty());
    assert_eq!(SkinnedMesh::for_skin(None, 0).err(), Some(ModelError::NoSkin));
}

#[test]
fn parts_are_taken_with_shifted_indices() {
    let mut mesh = SkinnedMesh::new(Vec::new(), 0);
    assert_eq!(mesh.add_primitive(&parts(3, Some(vec![0, 1, 2]))), Ok(()));
    assert_eq!(mesh.add_primitive(&parts(4, Some(vec![0, 1, 2, 2, 1, 3]))), Ok(()));
    assert_eq!(mesh.add_primitive(&parts(5, None)), Ok(()));
    assert_eq!(mesh.vertex_count, 12);
    assert_eq!(mesh.indices, vec![0, 1, 2, 3, 4, 5, 5, 4, 6]);
}

#[test]
fn faulty_parts_are_refused_and_change_nothing() {
    let mut mesh = SkinnedMesh::new(Vec::new(), 0);
    mesh.add_primitive(&parts(3, Some(vec![0, 1, 2]))).unwrap();
    let mut p = parts(3, Some(vec![0, 1, 2]));
    p.positions = None;
    assert_eq!(mesh.add_primitive(&p), Err(ModelError::NoPositions));
    let mut p = parts(3, None);
    p.joints = None;
    p.weights = None;
    assert_eq!(mesh.add_primitive(&p), Err(ModelError::NoJoints));
    let mut p = parts(3, None);
    p.weights = None;
    assert_eq!(mesh.add_primitive(&p), Err(ModelError::NoWeights));
    let mut p = parts(3, None);
    p.normals = Some(2);
    assert_eq!(mesh.add_primitive(&p), Err(ModelError::Uneven));
    let mut p = parts(3, None);
    p.weights = Some(4);
    assert_eq!(mesh.add_primitive(&p), Err(ModelError::Uneven));
    assert_eq!(mesh.add_primitive(&parts(3, Some(vec![0, 1, 3]))), Err(ModelError::StrayIndex));
    assert_eq!(mesh.add_primitive(&parts(u32::MAX as usize, None)), Err(ModelError::TooLarge));
    assert_eq!(mesh.vertex_count, 3);
    assert_eq!(mesh.indices, vec![0, 1, 2]);
    // a part without normals is fine
    let mut p = parts(2, None);
    p.normals = None;
    assert_eq!(mesh.add_primitive(&p), Ok(()));
    assert_eq!(mesh.vertex_count, 5);
}

#[test]
fn bones_are_found_by_name() {
    let have = names(&["root", "pelvis", "spine_1", "pelvis"]);
    assert_eq!(find_bone(&have, "pelvis"), Some(1));
    assert_eq!(find_bone(&have, "root"), Some(0));
    assert_eq!(find_bone(&have, "head_0"), None);
    assert_eq!(fallback_source(&have), FallbackSource::Pelvis(1));
    assert_eq!(fallback_source(&names(&["spine_1", "root"])), FallbackSource::Root(1));
    assert_eq!(fallback_source(&names(&["spine_1"])), FallbackSource::Identity);
    assert_eq!(fallback_source(&Vec::new()), FallbackSource::Identity);
}

#[test]
fn every_joint_is_driven_by_something() {
    let joints = vec![
        Some("pelvis".to_string()),
        Some("tail".to_string()),
        None,
        Some("head_0".to_string()),
        Some("tail".to_string()),
    ];
    let mesh = SkinnedMesh::new(joints, 5);
    let have = names(&["head_0", "pelvis"]);
    let mut missing = MissingBones::new();
    let sources = mesh.resolve_joints(&have, &mut missing);
    assert_eq!(
        sources,
        vec![
            JointSource::Bone(1),
            JointSource::Fallback,
            JointSource::Unnamed,
            JointSource::Bone(0),
            JointSource::Fallback,
        ]
    );
    // the missing bone is noted once, and not again on the next frame
    assert_eq!(missing.names, names(&["tail"]));
    let again = mesh.resolve_joints(&have, &mut missing);
    assert_eq!(again, sources);
    assert_eq!(missing.names, names(&["tail"]));
    // with no movements at all everything named falls back
    let none = mesh.resolve_joints(&Vec::new(), &mut missing);
    assert_eq!(none[0], JointSource::Fallback);
    assert_eq!(none[2], JointSource::Unnamed);
    assert_eq!(missing.names, names(&["tail", "pelvis", "head_0"]));
}

#[test]
fn missing_bones_are_recorded_once() {
    let mut missing = MissingBones::new();
    assert!(missing.record("a"));
    assert!(missing.record("b"));
    assert!(!missing.record("a"));
    assert_eq!(missing.names, names(&["a", "b"]));
}

fn quad_mesh() -> (SkinnedMesh, Vec<Point>) {
    let mut mesh = SkinnedMesh::new(Vec::new(), 0);
    // two quads facing +z, one at z = 0 and one at z = 50, and one triangle facing -z
    let mut indices = Vec::new();
    for base in [0u32, 4] {
        indices.extend_from_slice(&[base, base + 1, base + 2, base, base + 2, base + 3]);
    }
    indices.extend_from_slice(&[8, 10, 9]);
    // left over indices are no triangle
    indices.extend_from_slice(&[0, 1]);
    mesh.add_primitive(&parts(11, Some(indices))).unwrap();
    let mut world = Vec::new();
    for z in [0, 50] {
        world.push(Point::new(0, 0, z));
        world.push(Point::new(10, 0, z));
        world.push(Point::new(10, 10, z));
        world.push(Point::new(0, 10, z));
    }
    world.push(Point::new(0, 0, 20));
    world.push(Point::new(10, 0, 20));
    world.push(Point::new(10, 10, 20));
    (mesh, world)
}

#[test]
fn back_faces_and_unseen_corners_are_not_drawn() {
    let (mesh, world) = quad_mesh();
    assert!(points_fit_grid(&world));
    let mut screen: Vec<Option<ScreenPoint>> =
        world.iter().map(|p| Some(sp(p.x * 2 + p.z, p.y * 2))).collect();
    let camera = Point::new(5, 5, 100);
    let drawn = mesh.assemble(&world, &screen, &camera, &Shading::Tint);
    // the four halves of the quads face the camera, the last triangle does not
    assert_eq!(drawn.len(), 4);
    assert_eq!(drawn[0].p0, sp(0, 0));
    assert_eq!(drawn[0].p1, sp(20, 0));
    assert_eq!(drawn[0].p2, sp(20, 20));
    // squared distances of (0,0,0), (10,0,0), (10,10,0) from (5,5,100)
    assert_eq!(drawn[0].z, 3 * (25 + 25 + 10_000));
    assert_eq!(drawn[2].z, 3 * (25 + 25 + 2_500));

    // from below only the last one is seen
    let below = Point::new(5, 5, -100);
    let from_below = mesh.assemble(&world, &screen, &below, &Shading::Tint);
    assert_eq!(from_below.len(), 1);
    assert_eq!(from_below[0].p1, sp(40, 20));

    // a corner that is not on the screen takes its triangles with it
    screen[2] = None;
    let fewer = mesh.assemble(&world, &screen, &camera, &Shading::Tint);
    assert_eq!(fewer.len(), 2);
    assert_eq!(fewer[0].p0, sp(50, 0));
}

#[test]
fn far_triangles_are_drawn_first() {
    let (mesh, world) = quad_mesh();
    let screen: Vec<Option<ScreenPoint>> = world.iter().map(|p| Some(sp(p.x, p.y + p.z))).collect();
    let camera = Point::new(5, 5, 100);
    let ordered = mesh.render_order(&world, &screen, &camera, &Shading::Tint);
    let depths: Vec<u64> = ordered.iter().map(|t| t.z).collect();
    assert_eq!(depths, vec![30_150, 30_150, 7_650, 7_650]);
    let mut same = mesh.assemble(&world, &screen, &camera, &Shading::Tint);
    same.sort_by_key(|t| (std::cmp::Reverse(t.z), t.p0.x, t.p1.x, t.p2.x, t.p2.y));
    let mut got = ordered.clone();
    got.sort_by_key(|t| (std::cmp::Reverse(t.z), t.p0.x, t.p1.x, t.p2.x, t.p2.y));
    assert_eq!(got, same);
}

#[test]
fn near_triangles_in_front_of_the_mesh_are_moved_back() {
    // three triangles facing +z, listed from near to far as seen from above
    let mut mesh = SkinnedMesh::new(Vec::new(), 0);
    mesh.add_primitive(&parts(9, Some((0..9).collect()))).unwrap();
    let mut world = Vec::new();
    for z in [90, 40, 70] {
        world.push(Point::new(0, 0, z));
        world.push(Point::new(10, 0, z));
        world.push(Point::new(0, 10, z));
    }
    let screen: Vec<Option<ScreenPoint>> = world.iter().map(|p| Some(sp(p.z, p.x + p.y))).collect();
    let camera = Point::new(0, 0, 100);
    let listed = mesh.assemble(&world, &screen, &camera, &Shading::Tint);
    assert_eq!(listed.iter().map(|t| t.p0.x).collect::<Vec<i32>>(), vec![90, 40, 70]);
    let ordered = mesh.render_order(&world, &screen, &camera, &Shading::Tint);
    assert_eq!(ordered.iter().map(|t| t.p0.x).collect::<Vec<i32>>(), vec![40, 70, 90]);
    assert_eq!(ordered[0].z, 3 * 3600 + 200);
    assert_eq!(ordered[2].z, 3 * 100 + 200);
}

#[test]
fn bounds_hold_every_corner() {
    assert_eq!(screen_bounds(&Vec::new()), None);
    let tris = vec![
        RenderTri { p0: sp(5, 9), p1: sp(-3, 4), p2: sp(0, 0), z: 1, light: 255 },
        RenderTri { p0: sp(2, 2), p1: sp(7, -8), p2: sp(1, 30), z: 2, light: 255 },
    ];
    assert_eq!(screen_bounds(&tris), Some(ScreenBox { min: sp(-3, -8), max: sp(7, 30) }));
    assert_eq!(screen_bounds(&tris[..1].to_vec()), Some(ScreenBox { min: sp(-3, 0), max: sp(5, 9) }));
}

#[test]
fn light_falls_off_with_the_angle() {
    let up = Wide { x: 0, y: 0, z: 1_000_000 };
    let lit = |x: i32, y: i32, z: i32| Shading::Lit { toward_light: Shift { x, y, z } };
    assert_eq!(light_of(&up, &Shading::Tint), 255);
    assert_eq!(light_of(&up, &lit(0, 0, 1000)), 255);
    assert_eq!(light_of(&up, &lit(0, 0, -1000)), 0);
    assert_eq!(light_of(&up, &lit(1000, 0, 0)), 0);
    // 45 degrees: 255 / sqrt 2, with the light's length rounded down to 1414
    assert_eq!(light_of(&up, &lit(1000, 0, 1000)), 180);
    // 60 degrees: half; 1000000 + 3000000 is the square of 2000
    assert_eq!(light_of(&up, &lit(0, 1732, 1000)), 127);
    // nothing to go by: full light
    assert_eq!(light_of(&up, &lit(0, 0, 0)), 255);
    assert_eq!(light_of(&Wide { x: 0, y: 0, z: 0 }, &lit(0, 0, 1000)), 255);
    assert_eq!(light_of(&up, &lit(0, 0, 600_000)), 255);
}

#[test]
fn drawn_triangles_carry_their_light() {
    let (mesh, world) = quad_mesh();
    let screen: Vec<Option<ScreenPoint>> = world.iter().map(|p| Some(sp(p.x, p.y))).collect();
    let camera = Point::new(5, 5, 100);
    let from_above = Shading::Lit { toward_light: Shift { x: 0, y: 0, z: 1000 } };
    let sideways = Shading::Lit { toward_light: Shift { x: 0, y: 1000, z: 1000 } };
    for t in mesh.render_order(&world, &screen, &camera, &from_above) {
        assert_eq!(t.light, 255);
    }
    for t in mesh.render_order(&world, &screen, &camera, &sideways) {
        assert_eq!(t.light, 180);
    }
    for t in mesh.render_order(&world, &screen, &camera, &Shading::Tint) {
        assert_eq!(t.light, 255);
    }
}

#[test]
fn light_dims_a_colour_but_not_its_alpha() {
    let c = Color::from_u8([255, 100, 0, 77]);
    assert_eq!(c.lit(255), c);
    assert_eq!(c.lit(0), Color::from_u8([0, 0, 0, 77]));
    assert_eq!(c.lit(128), Color::from_u8([128, 50, 0, 77]));
    assert_eq!(c.lit(180), Color::from_u8([180, 70, 0, 77]));
}
