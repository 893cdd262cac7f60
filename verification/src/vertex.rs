//! Vertex attribute data and per-instance translations.
//!
//! Attribute coordinates are fixed point, `SCALE` subunits per world unit;
//! the render layer divides by `SCALE` when it builds its GPU buffers.

use vstd::prelude::*;

verus! {

/// One mesh vertex: position, texture coordinates and normal.
#[derive(Clone, Copy, Debug)]
pub struct Vertex {
    pub pos: [i64; 3],
    pub tex_coords: [i64; 2],
    pub norm: [i64; 3],
}

impl Vertex {
    pub fn new(pos: [i64; 3], tex_coords: [i64; 2], norm: [i64; 3]) -> (r: Vertex)
        ensures
            r == (Vertex { pos, tex_coords, norm }),
    {
        Vertex { pos, tex_coords, norm }
    }
}

/// The world-space translation of one rendered block instance.
#[derive(Clone, Copy, Debug, PartialEq, Eq, Structural)]
pub struct Translation {
    pub x: i64,
    pub y: i64,
    pub z: i64,
}

impl Translation {
    /// Strict lexicographic order: by x, then y, then z. Purely an
    /// implementation vehicle for binary search; it carries no meaning
    /// about render order.
    pub open spec fn spec_lt(self, other: Translation) -> bool {
        ||| self.x < other.x
        ||| (self.x == other.x && self.y < other.y)
        ||| (self.x == other.x && self.y == other.y && self.z < other.z)
    }

    pub fn lt(&self, other: &Translation) -> (r: bool)
        ensures
            r == self.spec_lt(*other),
    {
        self.x < other.x || (self.x == other.x && (self.y < other.y || (self.y == other.y
            && self.z < other.z)))
    }
}

} // verus!
