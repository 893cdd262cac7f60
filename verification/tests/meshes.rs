//! The constructed cube mesh and the vertex types.

use voxelgrid::{Mesh, Meshes, Translation, Vertex};

#[test]
fn cube_mesh_has_valid_indices() {
    let m = Meshes::load();
    assert_eq!(m.block.vertex_info.len(), 24);
    assert_eq!(m.block.indices.len(), 36);
    for i in m.block.indices.iter() {
        assert!((*i as usize) < m.block.vertex_info.len());
    }
}

#[test]
fn empty_mesh_starts_empty() {
    let m = Mesh::new();
    assert_eq!(m.vertex_info.len(), 0);
    assert_eq!(m.indices.len(), 0);
}

#[test]
fn vertex_new_keeps_attributes() {
    let v = Vertex::new([1, 2, 3], [4, 5], [6, 7, 8]);
    assert_eq!(v.pos, [1, 2, 3]);
    assert_eq!(v.tex_coords, [4, 5]);
    assert_eq!(v.norm, [6, 7, 8]);
}

#[test]
fn translation_order_is_lexicographic() {
    let a = Translation { x: 0, y: 9, z: 9 };
    let b = Translation { x: 1, y: 0, z: 0 };
    let c = Translation { x: 1, y: 0, z: 5 };
    assert!(a.lt(&b));
    assert!(b.lt(&c));
    assert!(!c.lt(&b));
    assert!(!b.lt(&b));
    assert_eq!(b, Translation { x: 1, y: 0, z: 0 });
}
