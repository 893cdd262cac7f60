//! Block targeting: closest-hit selection, face resolution and the full
//! place/remove round trip.

use voxelgrid::{
    local_pos_to_translation, place_position, GridPos, Vec3i, WorldProxy,
};

const U: i64 = 256; // one world unit in subunits

#[test]
fn closest_hit_selects_smaller_fraction() {
    // Two blocks on the +x ray from the origin, met at fractions 0.1 and
    // 0.5 of the traced segment: the nearer one wins.
    let mut pr = WorldProxy::with_capacity(8);
    pr.add_block(&GridPos::new(1, 0, 0));
    pr.add_block(&GridPos::new(3, 0, 0));
    let r = pr.find_block_look_at(&Vec3i::new(0, 0, 0), &Vec3i::new(U, 0, 0));
    let (wb, _) = r.expect("the ray crosses both blocks");
    assert_eq!(wb.local_pos(), GridPos::new(1, 0, 0));
}

#[test]
fn no_hit_when_looking_away() {
    let mut pr = WorldProxy::with_capacity(8);
    pr.add_block(&GridPos::new(3, 0, 0));
    let r = pr.find_block_look_at(&Vec3i::new(0, 0, 0), &Vec3i::new(-U, 0, 0));
    assert!(r.is_none());
}

#[test]
fn round_trip_place_on_positive_x_face() {
    // Add a block at (2,3,4), aim straight at its +x face: the resolved
    // placement coordinate is the +x neighbor (3,3,4). Then remove the
    // block and check its translation has left the mirror.
    let mut pr = WorldProxy::with_capacity(8);
    pr.add_block(&GridPos::new(2, 3, 4));
    // camera at grid (4,3,4)'s center, looking along -x
    let cam = Vec3i::new(4 * 512, 3 * 512, 4 * 512);
    let dir = Vec3i::new(-U, 0, 0);
    let (wb, hit) = pr
        .find_block_look_at(&cam, &dir)
        .expect("the block lies straight ahead");
    assert_eq!(wb.local_pos(), GridPos::new(2, 3, 4));
    let place = place_position(&wb.local_pos(), &hit);
    assert_eq!(place, Some(GridPos::new(3, 3, 4)));

    pr.remove_block(&GridPos::new(2, 3, 4));
    let gone = local_pos_to_translation(&GridPos::new(2, 3, 4));
    assert!(pr.translations().iter().all(|t| *t != gone));
    assert_eq!(pr.translations().len(), 0);
}

#[test]
fn place_on_negative_x_face_shifts_down() {
    let mut pr = WorldProxy::with_capacity(8);
    pr.add_block(&GridPos::new(2, 3, 4));
    // camera at the origin side, looking along +x at the -x face
    let cam = Vec3i::new(0, 3 * 512, 4 * 512);
    let dir = Vec3i::new(U, 0, 0);
    let (wb, hit) = pr.find_block_look_at(&cam, &dir).expect("block ahead");
    assert_eq!(wb.local_pos(), GridPos::new(2, 3, 4));
    assert_eq!(place_position(&wb.local_pos(), &hit), Some(GridPos::new(1, 3, 4)));
}

#[test]
fn place_below_grid_floor_is_refused() {
    // A block in the bottom layer, hit on its -y face: the shift would go
    // below zero, so placement is refused.
    let mut pr = WorldProxy::with_capacity(8);
    pr.add_block(&GridPos::new(2, 0, 2));
    // -y face of cell (2,0,2) is at y == -256; aim up from below is not
    // possible inside the grid, so test the resolver directly with the
    // exact face hit point (denominator 1).
    let hit = voxelgrid::Vec3q {
        x: voxelgrid::Ratio { num: 2 * 512, den: 1 },
        y: voxelgrid::Ratio { num: -256, den: 1 },
        z: voxelgrid::Ratio { num: 2 * 512, den: 1 },
    };
    assert_eq!(place_position(&GridPos::new(2, 0, 2), &hit), None);
}

#[test]
fn grazing_hit_resolves_no_face() {
    // A hit point at the center of the +x face region but short of every
    // face plane tolerance: e.g. the box center itself.
    let hit = voxelgrid::Vec3q {
        x: voxelgrid::Ratio { num: 512, den: 1 },
        y: voxelgrid::Ratio { num: 512, den: 1 },
        z: voxelgrid::Ratio { num: 512, den: 1 },
    };
    assert_eq!(place_position(&GridPos::new(1, 1, 1), &hit), None);
}

#[test]
fn face_tolerance_accepts_near_boundary_hits() {
    // 99% of the half-edge: 0.99 * 256 = 253.44, so 254 is on the face,
    // 253 is not.
    let on_face = voxelgrid::Vec3q {
        x: voxelgrid::Ratio { num: 512 + 254, den: 1 },
        y: voxelgrid::Ratio { num: 512, den: 1 },
        z: voxelgrid::Ratio { num: 512, den: 1 },
    };
    assert_eq!(place_position(&GridPos::new(1, 1, 1), &on_face), Some(GridPos::new(2, 1, 1)));
    let off_face = voxelgrid::Vec3q {
        x: voxelgrid::Ratio { num: 512 + 253, den: 1 },
        y: voxelgrid::Ratio { num: 512, den: 1 },
        z: voxelgrid::Ratio { num: 512, den: 1 },
    };
    assert_eq!(place_position(&GridPos::new(1, 1, 1), &off_face), None);
}

#[test]
fn interact_place_adds_neighbor_block() {
    let mut pr = WorldProxy::with_capacity(8);
    pr.add_block(&GridPos::new(2, 3, 4));
    let cam = Vec3i::new(4 * 512, 3 * 512, 4 * 512);
    let dir = Vec3i::new(-U, 0, 0);
    let placed = pr.place_block_look_at(&cam, &dir);
    assert_eq!(placed, Some(GridPos::new(3, 3, 4)));
    let t = local_pos_to_translation(&GridPos::new(3, 3, 4));
    assert!(pr.translations().iter().any(|x| *x == t));
}

#[test]
fn interact_remove_clears_targeted_block() {
    let mut pr = WorldProxy::with_capacity(8);
    pr.add_block(&GridPos::new(2, 3, 4));
    let cam = Vec3i::new(4 * 512, 3 * 512, 4 * 512);
    let dir = Vec3i::new(-U, 0, 0);
    let removed = pr.remove_block_look_at(&cam, &dir);
    assert_eq!(removed, Some(GridPos::new(2, 3, 4)));
    assert_eq!(pr.translations().len(), 0);
    // a second remove finds nothing
    assert_eq!(pr.remove_block_look_at(&cam, &dir), None);
}

#[test]
fn out_of_reach_block_is_not_targeted() {
    // reach is 4 cells; a block 6 cells away is outside the query cube and
    // beyond the traced segment of 10 world units
    let mut pr = WorldProxy::with_capacity(16);
    pr.add_block(&GridPos::new(6, 0, 0));
    let r = pr.find_block_look_at(&Vec3i::new(0, 0, 0), &Vec3i::new(U, 0, 0));
    assert!(r.is_none());
}

#[test]
fn block_at_reach_boundary_is_targeted() {
    // the cube of half-width 4 around cell 0 includes cell 4, and the ray,
    // traced (reach + 1) block edges, reaches its near face
    let mut pr = WorldProxy::with_capacity(16);
    pr.add_block(&GridPos::new(4, 0, 0));
    let r = pr.find_block_look_at(&Vec3i::new(0, 0, 0), &Vec3i::new(U, 0, 0));
    let (wb, _) = r.expect("boundary block is within reach");
    assert_eq!(wb.local_pos(), GridPos::new(4, 0, 0));
}
