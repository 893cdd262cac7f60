//! Three-component points and vectors.
//!
//! `Vec3i` is a world-space point or direction in integer subunits; `Vec3q`
//! is a point with exact rational coordinates, such as the hit point of a
//! ray against a box.

use vstd::prelude::*;

use crate::aabb::Axis;
use crate::ratio::Ratio;

verus! {

/// A world-space point or vector, in integer subunits.
#[derive(Clone, Copy, Debug, PartialEq, Eq, Structural)]
pub struct Vec3i {
    pub x: i64,
    pub y: i64,
    pub z: i64,
}

impl Vec3i {
    pub fn new(x: i64, y: i64, z: i64) -> (r: Vec3i)
        ensures
            r == (Vec3i { x, y, z }),
    {
        Vec3i { x, y, z }
    }

    /// Every component has magnitude at most `b`.
    pub open spec fn in_bounds(self, b: int) -> bool {
        &&& -b <= self.x <= b
        &&& -b <= self.y <= b
        &&& -b <= self.z <= b
    }

    /// The component on one axis.
    pub open spec fn spec_axis(self, a: Axis) -> i64 {
        match a {
            Axis::X => self.x,
            Axis::Y => self.y,
            Axis::Z => self.z,
        }
    }

    /// Read the component on one axis.
    pub fn axis(&self, a: Axis) -> (r: i64)
        ensures
            r == self.spec_axis(a),
    {
        match a {
            Axis::X => self.x,
            Axis::Y => self.y,
            Axis::Z => self.z,
        }
    }
}

/// A point with exact rational coordinates.
#[derive(Clone, Copy, Debug)]
pub struct Vec3q {
    pub x: Ratio,
    pub y: Ratio,
    pub z: Ratio,
}

} // verus!
