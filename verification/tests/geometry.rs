//! Ray/box intersection scenarios. World scalars are in subunits: one world
//! unit is 256 subunits, a block edge is 512 subunits.

use voxelgrid::{ray_intersect, Axis, Block, BlockType, Vec3i};

const U: i64 = 256; // one world unit in subunits

#[test]
fn slab_hit_straight_on() {
    // Unit-cube box centered at the origin (Block: min -1, max +1 world
    // units), ray from (-5, 0, 0) along +x, length 10: hit at fraction 0.4
    // and hit point (-1, 0, 0).
    let block = Block::new(BlockType::Solid(0));
    let origin = Vec3i::new(-5 * U, 0, 0);
    let dir = Vec3i::new(U, 0, 0);
    let r = ray_intersect(&origin, &dir, 10, &block, &Vec3i::new(0, 0, 0));
    let (f, hit) = r.expect("ray must hit the box");
    // fraction == 0.4 exactly
    assert_eq!(f.num * 5, f.den * 2);
    // hit point x == -1 world unit, y == z == 0
    assert_eq!(hit.x.num, -U * hit.x.den);
    assert_eq!(hit.y.num, 0);
    assert_eq!(hit.z.num, 0);
}

#[test]
fn slab_miss_offset_ray() {
    // Same box, ray from (-5, 5, 0) along +x: passes above the box.
    let block = Block::new(BlockType::Solid(0));
    let origin = Vec3i::new(-5 * U, 5 * U, 0);
    let dir = Vec3i::new(U, 0, 0);
    let r = ray_intersect(&origin, &dir, 10, &block, &Vec3i::new(0, 0, 0));
    assert!(r.is_none());
}

#[test]
fn axis_parallel_ray_inside_slab() {
    // Direction has zero x and y components while the origin lies within
    // the box's x and y slabs: those axes must not cause a spurious miss.
    let block = Block::new(BlockType::Solid(0));
    let origin = Vec3i::new(0, 0, -5 * U);
    let dir = Vec3i::new(0, 0, U);
    let r = ray_intersect(&origin, &dir, 10, &block, &Vec3i::new(0, 0, 0));
    let (f, hit) = r.expect("parallel axes inside the slab impose no constraint");
    assert_eq!(f.num * 5, f.den * 2);
    assert_eq!(hit.z.num, -U * hit.z.den);
}

#[test]
fn axis_parallel_ray_outside_slab_misses() {
    // Zero x component with the origin outside the x slab: whole test is
    // excluded, whatever the other axes say.
    let block = Block::new(BlockType::Solid(0));
    let origin = Vec3i::new(3 * U, 0, -5 * U);
    let dir = Vec3i::new(0, 0, U);
    let r = ray_intersect(&origin, &dir, 10, &block, &Vec3i::new(0, 0, 0));
    assert!(r.is_none());
}

#[test]
fn ray_starting_inside_box_hits_at_zero() {
    let block = Block::new(BlockType::Solid(0));
    let origin = Vec3i::new(0, 0, 0);
    let dir = Vec3i::new(U, 0, 0);
    let r = ray_intersect(&origin, &dir, 10, &block, &Vec3i::new(0, 0, 0));
    let (f, hit) = r.expect("a ray starting inside the box hits it");
    assert_eq!(f.num, 0);
    assert_eq!(hit.x.num, 0);
}

#[test]
fn ray_hits_translated_box() {
    // The same box moved two block edges along +x.
    let block = Block::new(BlockType::Solid(0));
    let origin = Vec3i::new(0, 0, 0);
    let dir = Vec3i::new(U, 0, 0);
    let r = ray_intersect(&origin, &dir, 10, &block, &Vec3i::new(4 * U, 0, 0));
    let (f, hit) = r.expect("translated box lies on the ray");
    // entry plane at x = 3 world units, traced length 10: fraction 0.3
    assert_eq!(f.num * 10, f.den * 3);
    assert_eq!(hit.x.num, 3 * U * hit.x.den);
}

#[test]
fn ray_pointing_away_misses() {
    let block = Block::new(BlockType::Solid(0));
    let origin = Vec3i::new(-5 * U, 0, 0);
    let dir = Vec3i::new(-U, 0, 0);
    let r = ray_intersect(&origin, &dir, 10, &block, &Vec3i::new(0, 0, 0));
    assert!(r.is_none());
}

#[test]
fn axis_accessor_reads_components() {
    let v = Vec3i::new(7, -8, 9);
    assert_eq!(v.axis(Axis::X), 7);
    assert_eq!(v.axis(Axis::Y), -8);
    assert_eq!(v.axis(Axis::Z), 9);
}
