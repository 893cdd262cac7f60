//! A voxel world core: a bounded grid of cubic blocks, exact ray/box
//! intersection for targeting, face resolution for block placement, and a
//! sorted instance mirror that tracks the grid's solid cells for rendering.
//!
//! World space is measured in integer subunits (`SCALE` subunits per world
//! unit), so every geometric computation is exact: fractions along a ray
//! segment are rational numbers, never rounded.

mod aabb;
mod block;
mod math;
mod mesh;
mod meshes;
mod ratio;
mod targeting;
mod vec3;
mod vertex;
mod world;
mod world_proxy;

pub use aabb::{ray_intersect, Axis, AABB};
pub use block::{Block, BlockType};
pub use math::{clamp, safe_cast};
pub use mesh::Mesh;
pub use meshes::Meshes;
pub use ratio::Ratio;
pub use targeting::place_position;
pub use vec3::{Vec3i, Vec3q};
pub use vertex::{Translation, Vertex};
pub use world::{GridPos, World, WorldBlock};
pub use world_proxy::{local_pos_to_translation, WorldProxy};

use vstd::prelude::*;

verus! {

/// Subunits per world unit: all world-space scalars are fixed-point with
/// this denominator.
pub const SCALE: i64 = 256;

/// Edge length of one block in world subunits (two world units).
pub const DIM: i64 = 512;

/// Bound on the magnitude of world-space coordinates accepted by the
/// geometry routines; keeps every intermediate product inside `i64`.
pub const MAX_COORD: i64 = 0x100_0000;

/// Largest grid side: keeps the cell count addressable and every cell's
/// world position within `MAX_COORD`.
pub const GRID_CAP_MAX: usize = 1000;

/// How far, in grid cells, the player can target and interact with blocks.
pub const REACH_DISTANCE: usize = 4;

/// Bound on the magnitude of view-direction components handed to the
/// targeting query; a unit direction has magnitude `SCALE`, and this bound
/// keeps the traced segment within `MAX_COORD`.
pub const DIR_MAX: i64 = 4096;

} // verus!
