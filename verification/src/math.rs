//! Small numeric helpers shared by the world and targeting code.

use vstd::prelude::*;

use crate::vec3::Vec3i;
use crate::world::GridPos;
use crate::MAX_COORD;

verus! {

/// Truncate a world-space point to non-negative integer axes: coordinates
/// below the origin collapse to zero, since the grid has no negative
/// coordinates.
pub fn safe_cast(a: &Vec3i) -> (r: GridPos)
    requires
        a.x <= MAX_COORD,
        a.y <= MAX_COORD,
        a.z <= MAX_COORD,
    ensures
        r.x == (if a.x >= 0 { a.x as int } else { 0 }),
        r.y == (if a.y >= 0 { a.y as int } else { 0 }),
        r.z == (if a.z >= 0 { a.z as int } else { 0 }),
{
    GridPos {
        x: (if a.x >= 0 { a.x } else { 0 }) as usize,
        y: (if a.y >= 0 { a.y } else { 0 }) as usize,
        z: (if a.z >= 0 { a.z } else { 0 }) as usize,
    }
}

/// Clamp `v` to the closed interval `[min, max]`.
///
/// When `min > max` the lower bound wins for values below it, matching the
/// branch order: `v < min` is tested first.
pub fn clamp(v: i64, min: i64, max: i64) -> (r: i64)
    ensures
        v < min ==> r == min,
        v >= min && v > max ==> r == max,
        v >= min && v <= max ==> r == v,
{
    if v < min {
        min
    } else if v > max {
        max
    } else {
        v
    }
}

} // verus!
