use dystopia_core::map::shape::rectangle as urectangle;
use dystopia_core::math::shape::icosahedron::{icosahedron, rectangle};
use dystopia_core::math::{IVec2, IVec3, UVec2};

#[test]
fn icosahedron_sizes() {
    let o = IVec3::new(0, 0, 1);
    assert_eq!(icosahedron(0, o).len(), 20);
    assert_eq!(icosahedron(1, o).len(), 80);
    assert_eq!(icosahedron(2, o).len(), 320);
    assert_eq!(icosahedron(3, o).len(), 1280);
}

#[test]
fn icosahedron_tiles_are_triangles() {
    for s in 0..4 {
        for t in icosahedron(s, IVec3::new(5, -7, 3)) {
            let sum = t.x + t.y + t.z;
            assert!(sum == 1 || sum == 2, "{:?}", t);
        }
    }
}

#[test]
fn icosahedron_without_subdivision() {
    let o = IVec3::new(0, 0, 1);
    let shape = icosahedron(0, o);
    // Bottom: five single downward triangles one step apart along (1, 0, -1).
    for i in 0..5 {
        assert_eq!(shape[i], IVec3::new(i as i32, 0, 1 - i as i32));
    }
    // Middle band: ten triangles starting one row up.
    assert_eq!(shape[5], IVec3::new(-1, 1, 1));
    assert_eq!(shape[6], IVec3::new(0, 1, 1));
    assert_eq!(shape[7], IVec3::new(0, 1, 0));
    // Top: five upward triangles.
    assert_eq!(shape[15], IVec3::new(-1, 2, 1));
    assert_eq!(shape[16], IVec3::new(0, 2, 0));
    assert_eq!(shape[19], IVec3::new(3, 2, -3));
}

#[test]
fn icosahedron_first_face_subdivided() {
    let o = IVec3::new(0, 0, 1);
    let shape = icosahedron(1, o);
    // The first face has two layers: one tile, then three.
    assert_eq!(shape[0], IVec3::new(0, 0, 1));
    assert_eq!(shape[1], IVec3::new(-1, 1, 1));
    assert_eq!(shape[2], IVec3::new(0, 1, 1));
    assert_eq!(shape[3], IVec3::new(0, 1, 0));
    // The second face starts two steps along (1, 0, -1).
    assert_eq!(shape[4], IVec3::new(2, 0, -1));
}

#[test]
fn icosahedron_tiles_are_distinct() {
    let shape = icosahedron(2, IVec3::new(0, 0, 1));
    for i in 0..shape.len() {
        for j in (i + 1)..shape.len() {
            assert_ne!(shape[i], shape[j]);
        }
    }
}

#[test]
fn signed_rectangle() {
    let r = rectangle(2, 3);
    assert_eq!(
        r,
        vec![
            IVec2::new(0, 0),
            IVec2::new(0, 1),
            IVec2::new(0, 2),
            IVec2::new(1, 0),
            IVec2::new(1, 1),
            IVec2::new(1, 2)
        ]
    );
    assert!(rectangle(0, 5).is_empty());
    assert!(rectangle(5, 0).is_empty());
    assert!(rectangle(0x8000_0000, 3).is_empty());
}

#[test]
fn unsigned_rectangle() {
    let r = urectangle(3, 1);
    assert_eq!(r, vec![UVec2::new(0, 0), UVec2::new(1, 0), UVec2::new(2, 0)]);
    assert_eq!(urectangle(10, 10).len(), 100);
    assert_eq!(urectangle(10, 10)[57], UVec2::new(5, 7));
}
