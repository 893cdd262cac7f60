//! Voxel grid bounds and neighborhood-query behavior.

use voxelgrid::{clamp, safe_cast, BlockType, GridPos, Vec3i, World};

#[test]
fn out_of_bounds_add_leaves_grid_unchanged() {
    let mut w = World::with_capacity(4);
    w.add_block(BlockType::Solid(7), &GridPos::new(4, 0, 0));
    w.add_block(BlockType::Solid(7), &GridPos::new(0, 9, 0));
    w.add_block(BlockType::Solid(7), &GridPos::new(0, 0, 100));
    // a query over the whole grid sees no solid cell
    let r = w.blocks(&GridPos::new(2, 2, 2), 4);
    assert_eq!(r.len(), 0);
}

#[test]
fn added_block_is_returned_by_covering_query() {
    let mut w = World::with_capacity(4);
    w.add_block(BlockType::Solid(1), &GridPos::new(1, 2, 3));
    let r = w.blocks(&GridPos::new(1, 2, 3), 2);
    assert_eq!(r.len(), 1);
    assert_eq!(r[0].local_pos(), GridPos::new(1, 2, 3));
    assert!(matches!(r[0].block.get_type(), BlockType::Solid(1)));
}

#[test]
fn query_is_clipped_and_ordered() {
    let mut w = World::with_capacity(4);
    w.add_block(BlockType::Solid(0), &GridPos::new(0, 0, 0));
    w.add_block(BlockType::Solid(0), &GridPos::new(0, 0, 1));
    w.add_block(BlockType::Solid(0), &GridPos::new(1, 0, 0));
    w.add_block(BlockType::Solid(0), &GridPos::new(0, 1, 0));
    // center near the lower corner: the cube is clipped at zero
    let r = w.blocks(&GridPos::new(0, 0, 0), 2);
    let ps: Vec<GridPos> = r.iter().map(|wb| wb.local_pos()).collect();
    assert_eq!(
        ps,
        vec![
            GridPos::new(0, 0, 0),
            GridPos::new(0, 0, 1),
            GridPos::new(0, 1, 0),
            GridPos::new(1, 0, 0),
        ]
    );
}

#[test]
fn query_excludes_void_cells() {
    let mut w = World::with_capacity(8);
    w.add_block(BlockType::Solid(0), &GridPos::new(3, 3, 3));
    w.remove_block(&GridPos::new(3, 3, 3));
    let r = w.blocks(&GridPos::new(3, 3, 3), 2);
    assert_eq!(r.len(), 0);
}

#[test]
fn query_cube_includes_boundary_faces() {
    // a cell at exactly center + radius (and one at center - radius) lies
    // within the cube of half-width radius and must be reported
    let mut w = World::with_capacity(8);
    w.add_block(BlockType::Solid(0), &GridPos::new(5, 3, 3));
    w.add_block(BlockType::Solid(0), &GridPos::new(1, 3, 3));
    w.add_block(BlockType::Solid(0), &GridPos::new(6, 3, 3)); // one past the face
    let r = w.blocks(&GridPos::new(3, 3, 3), 2);
    let ps: Vec<GridPos> = r.iter().map(|wb| wb.local_pos()).collect();
    assert_eq!(ps, vec![GridPos::new(1, 3, 3), GridPos::new(5, 3, 3)]);
}

#[test]
fn remove_out_of_bounds_is_a_noop() {
    let mut w = World::with_capacity(2);
    w.add_block(BlockType::Solid(0), &GridPos::new(1, 1, 1));
    w.remove_block(&GridPos::new(7, 7, 7));
    let r = w.blocks(&GridPos::new(1, 1, 1), 2);
    assert_eq!(r.len(), 1);
}

#[test]
fn clamp_orders_bounds() {
    assert_eq!(clamp(5, 0, 10), 5);
    assert_eq!(clamp(-3, 0, 10), 0);
    assert_eq!(clamp(42, 0, 10), 10);
    assert_eq!(clamp(0, 0, 10), 0);
    assert_eq!(clamp(10, 0, 10), 10);
}

#[test]
fn safe_cast_clamps_negative_axes() {
    let p = safe_cast(&Vec3i::new(-100, 0, 515));
    assert_eq!(p, GridPos::new(0, 0, 515));
}
