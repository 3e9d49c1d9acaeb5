use controller::enhancements::geometry::{Point, Triangle};
use controller::enhancements::map_loader::{to_source2, MapError, MapMesh};

fn p(x: i32, y: i32, z: i32) -> Point {
    Point::new(x, y, z)
}

#[test]
fn file_axes_become_level_axes() {
    // up in the file is the second axis, up in the level the third
    assert_eq!(to_source2(p(1, 2, 3)), p(3, 1, 2));
    assert_eq!(to_source2(p(0, 10, 0)), p(0, 0, 10));
}

#[test]
fn whole_triples_become_triangles() {
    let positions = vec![p(0, 0, 0), p(9, 0, 0), p(0, 9, 0), p(0, 0, 9)];
    let mut raw = vec![Triangle::new(p(1, 1, 1), p(2, 2, 2), p(3, 3, 3), 0)];
    // two triangles and two indices left over
    let indices = vec![0, 1, 2, 0, 2, 3, 1, 2];
    assert_eq!(MapMesh::add_triangles(&mut raw, &positions, &indices), Ok(()));
    assert_eq!(raw.len(), 3);
    assert_eq!(raw[1], Triangle::new(p(0, 0, 0), p(9, 0, 0), p(0, 9, 0), 1));
    assert_eq!(raw[2], Triangle::new(p(0, 0, 0), p(0, 9, 0), p(0, 0, 9), 2));
    assert_eq!(raw[1].center, p(3, 3, 0));
    // fewer than three indices are no triangle
    assert_eq!(MapMesh::add_triangles(&mut raw, &positions, &vec![0, 1]), Ok(()));
    assert_eq!(MapMesh::add_triangles(&mut raw, &positions, &Vec::new()), Ok(()));
    assert_eq!(raw.len(), 3);
}

#[test]
fn stray_index_takes_nothing() {
    let positions = vec![p(0, 0, 0), p(9, 0, 0), p(0, 9, 0)];
    let mut raw = Vec::new();
    assert_eq!(
        MapMesh::add_triangles(&mut raw, &positions, &vec![0, 1, 2, 0, 1, 3]),
        Err(MapError::StrayIndex)
    );
    assert!(raw.is_empty());
    // a stray index among the left over ones does no harm
    assert_eq!(MapMesh::add_triangles(&mut raw, &positions, &vec![0, 1, 2, 7]), Ok(()));
    assert_eq!(raw.len(), 1);
}
