//! The block cell type and its bounding box.

use vstd::prelude::*;

use crate::aabb::AABB;
use crate::vec3::Vec3i;
use crate::DIM;

verus! {

/// A cell's tag: empty (not rendered, not targetable) or occupied. The
/// carried id is an opaque content identifier, kept but never interpreted.
#[derive(Clone, Copy, Debug, PartialEq, Eq, Structural)]
pub enum BlockType {
    Void(usize),
    Solid(usize),
}

/// One cell of the voxel grid.
#[derive(Clone, Copy, Debug, PartialEq, Eq, Structural)]
pub struct Block {
    pub block_type: BlockType,
}

impl Block {
    pub fn new(block_type: BlockType) -> (r: Block)
        ensures
            r.block_type == block_type,
    {
        Block { block_type }
    }

    pub fn get_type(&self) -> (r: BlockType)
        ensures
            r == self.block_type,
    {
        self.block_type
    }

    /// An occupied cell: rendered and targetable.
    pub open spec fn is_solid(self) -> bool {
        self.block_type is Solid
    }

    /// Report whether the cell is occupied.
    pub fn solid(&self) -> (r: bool)
        ensures
            r == self.is_solid(),
    {
        match self.block_type {
            BlockType::Solid(_) => true,
            BlockType::Void(_) => false,
        }
    }
}

/// The lower corner of every block's local bounding box: the cube of edge
/// `DIM` centered on the block's own origin.
pub open spec fn block_box_min() -> Vec3i {
    Vec3i { x: (-(DIM / 2)) as i64, y: (-(DIM / 2)) as i64, z: (-(DIM / 2)) as i64 }
}

/// The upper corner of every block's local bounding box.
pub open spec fn block_box_max() -> Vec3i {
    Vec3i { x: (DIM / 2) as i64, y: (DIM / 2) as i64, z: (DIM / 2) as i64 }
}

/// A block's local bounding box is the cube of edge `DIM` centered on its
/// own origin.
impl AABB for Block {
    open spec fn spec_min(&self) -> Vec3i {
        block_box_min()
    }

    open spec fn spec_max(&self) -> Vec3i {
        block_box_max()
    }

    fn get_min(&self) -> (r: Vec3i) {
        Vec3i { x: -(DIM / 2), y: -(DIM / 2), z: -(DIM / 2) }
    }

    fn get_max(&self) -> (r: Vec3i) {
        Vec3i { x: DIM / 2, y: DIM / 2, z: DIM / 2 }
    }
}

/// A fresh cell is empty.
impl Default for Block {
    fn default() -> (r: Self)
        ensures
            r.block_type == BlockType::Void(0),
    {
        Block { block_type: BlockType::Void(0) }
    }
}

} // verus!
