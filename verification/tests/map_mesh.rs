use controller::enhancements::geometry::{Aabb, Point, Triangle};
use controller::enhancements::map_loader::{LinearNode, MapMesh};

fn tri(x: i32, y: i32, z: i32, source: u32) -> Triangle {
    Triangle::new(
        Point::new(x, y, z),
        Point::new(x + 10, y, z),
        Point::new(x, y + 10, z + 1),
        source,
    )
}

fn leaf_sources(mesh: &MapMesh) -> Vec<u32> {
    let mut out = Vec::new();
    for node in &mesh.nodes {
        if node.count > 0 {
            let start = node.offset as usize;
            for k in start..start + node.count as usize {
                out.push(mesh.triangles[k].source);
            }
        }
    }
    out
}

fn box_of(tris: &[Triangle]) -> Aabb {
    let mut b = Aabb::new();
    for t in tris {
        b.expand(&t.v0);
        b.expand(&t.v1);
        b.expand(&t.v2);
    }
    b
}

fn subtree_end(nodes: &[LinearNode], at: usize) -> usize {
    if nodes[at].count > 0 {
        at + 1
    } else {
        subtree_end(nodes, nodes[at].offset as usize)
    }
}

#[test]
fn empty_input_gives_empty_mesh() {
    let mesh = MapMesh::from_triangles(Vec::new());
    assert!(mesh.triangles.is_empty());
    assert!(mesh.nodes.is_empty());
}

#[test]
fn single_triangle_is_one_leaf() {
    let t = Triangle::new(Point::new(1, 2, 3), Point::new(7, -2, 3), Point::new(4, 9, 5), 42);
    let mesh = MapMesh::from_triangles(vec![t]);
    assert_eq!(mesh.nodes.len(), 1);
    assert_eq!(mesh.triangles, vec![t]);
    let leaf = mesh.nodes[0];
    assert_eq!(leaf.count, 1);
    assert_eq!(leaf.offset, 0);
    assert_eq!(leaf.aabb.min, Point::new(1, -2, 3));
    assert_eq!(leaf.aabb.max, Point::new(7, 9, 5));
}

#[test]
fn eight_triangles_stay_in_one_leaf() {
    let tris: Vec<Triangle> = (0..8).map(|i| tri(i * 100, 0, 0, i as u32)).collect();
    let mesh = MapMesh::from_triangles(tris.clone());
    assert_eq!(mesh.nodes.len(), 1);
    assert_eq!(mesh.nodes[0].count, 8);
    assert_eq!(mesh.triangles, tris);
}

#[test]
fn nine_triangles_split_four_and_five() {
    let tris: Vec<Triangle> = (0..9).map(|i| tri((8 - i) * 100, 0, 0, i as u32)).collect();
    let mesh = MapMesh::from_triangles(tris);
    assert_eq!(mesh.nodes.len(), 3);
    assert_eq!(mesh.nodes[0].count, 0);
    assert_eq!(mesh.nodes[0].offset, 2);
    assert_eq!((mesh.nodes[1].offset, mesh.nodes[1].count), (0, 4));
    assert_eq!((mesh.nodes[2].offset, mesh.nodes[2].count), (4, 5));
    // split along x: the four least centres come first
    let mut left: Vec<u32> = mesh.triangles[..4].iter().map(|t| t.source).collect();
    left.sort();
    assert_eq!(left, vec![5, 6, 7, 8]);
}

#[test]
fn leaves_name_every_triangle_once() {
    let mut tris = Vec::new();
    let mut seed: u32 = 12345;
    for i in 0..1000u32 {
        seed = seed.wrapping_mul(1664525).wrapping_add(1013904223);
        let x = (seed >> 8) as i32 % 5000;
        seed = seed.wrapping_mul(1664525).wrapping_add(1013904223);
        let y = (seed >> 8) as i32 % 3000;
        seed = seed.wrapping_mul(1664525).wrapping_add(1013904223);
        let z = (seed >> 8) as i32 % 700;
        tris.push(tri(x, y, z, i));
    }
    let mesh = MapMesh::from_triangles(tris.clone());
    let mut seen = leaf_sources(&mesh);
    assert_eq!(seen.len(), 1000);
    seen.sort();
    assert_eq!(seen, (0..1000).collect::<Vec<u32>>());
    for t in &mesh.triangles {
        assert_eq!(*t, tris[t.source as usize]);
    }
    for node in &mesh.nodes {
        assert!(node.count as usize <= 8);
    }
}

#[test]
fn every_box_is_exact_and_holds_its_children() {
    let mut tris = Vec::new();
    for i in 0..200i32 {
        tris.push(tri((i * 37) % 1000, (i * 91) % 800, (i * 13) % 90, i as u32));
    }
    let mesh = MapMesh::from_triangles(tris);
    let nodes = &mesh.nodes;
    // the run of each node, found by walking the array in order
    fn walk(nodes: &[LinearNode], tris: &[Triangle], at: usize, lo: usize, hi: usize) {
        let node = nodes[at];
        assert_eq!(node.aabb, box_of(&tris[lo..hi]));
        if node.count > 0 {
            assert_eq!(node.offset as usize, lo);
            assert_eq!(node.count as usize, hi - lo);
        } else {
            let right = node.offset as usize;
            let mid = lo + (hi - lo) / 2;
            assert_eq!(subtree_end(nodes, at + 1), right);
            let l = nodes[at + 1].aabb;
            let r = nodes[right].aabb;
            for child in [l, r] {
                assert!(node.aabb.min.x <= child.min.x && child.max.x <= node.aabb.max.x);
                assert!(node.aabb.min.y <= child.min.y && child.max.y <= node.aabb.max.y);
                assert!(node.aabb.min.z <= child.min.z && child.max.z <= node.aabb.max.z);
            }
            walk(nodes, tris, at + 1, lo, mid);
            walk(nodes, tris, right, mid, hi);
        }
    }
    walk(nodes, &mesh.triangles, 0, 0, mesh.triangles.len());
}

#[test]
fn split_axis_prefers_the_earlier_of_equal_extents() {
    let cube = Aabb { min: Point::new(0, 0, 0), max: Point::new(5, 5, 5) };
    assert_eq!(cube.split_axis(), 0);
    let flat = Aabb { min: Point::new(0, 0, 0), max: Point::new(1, 5, 5) };
    assert_eq!(flat.split_axis(), 1);
    let tall = Aabb { min: Point::new(0, 0, 0), max: Point::new(1, 2, 5) };
    assert_eq!(tall.split_axis(), 2);
}

#[test]
fn centroid_rounds_toward_zero() {
    let t = Triangle::new(Point::new(1, -1, 0), Point::new(1, -1, 0), Point::new(0, 0, 1), 0);
    assert_eq!(t.center, Point::new(0, 0, 0));
    let u = Triangle::new(Point::new(3, -3, 9), Point::new(3, -4, 9), Point::new(4, -4, 9), 0);
    assert_eq!(u.center, Point::new(3, -3, 9));
}
