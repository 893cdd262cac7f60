//! The voxel grid: a fixed-capacity dense cube of blocks with bounded
//! mutation and a bounded, deterministically ordered neighborhood query.

use vstd::prelude::*;

use crate::block::{Block, BlockType};
use crate::vec3::Vec3i;
use crate::{DIM, GRID_CAP_MAX};

verus! {

/// An integer grid coordinate; each axis indexes a cell in `[0, capacity)`.
#[derive(Clone, Copy, Debug, PartialEq, Eq, Structural)]
pub struct GridPos {
    pub x: usize,
    pub y: usize,
    pub z: usize,
}

impl GridPos {
    pub fn new(x: usize, y: usize, z: usize) -> (r: GridPos)
        ensures
            r == (GridPos { x, y, z }),
    {
        GridPos { x, y, z }
    }
}

/// Strict lexicographic order on grid coordinates: by x, then y, then z.
pub open spec fn grid_lex_lt(a: GridPos, b: GridPos) -> bool {
    ||| a.x < b.x
    ||| (a.x == b.x && a.y < b.y)
    ||| (a.x == b.x && a.y == b.y && a.z < b.z)
}

/// Lower end of a query range on one axis: `c - r`, clipped at zero.
pub open spec fn lo_clip(c: int, r: int) -> int {
    if c >= r {
        c - r
    } else {
        0
    }
}

/// Upper end (exclusive) of a query range on one axis: `c + r + 1`, so the
/// face at `c + r` itself is included, clipped at the grid side.
pub open spec fn hi_clip(c: int, r: int, cap: int) -> int {
    if c + r + 1 <= cap {
        c + r + 1
    } else {
        cap
    }
}

/// The world-space translation of a grid cell: its coordinate scaled by the
/// block edge length.
pub open spec fn spec_world_pos(p: GridPos) -> Vec3i {
    Vec3i { x: (p.x * DIM) as i64, y: (p.y * DIM) as i64, z: (p.z * DIM) as i64 }
}

/// A block paired with the grid coordinate it was found at; produced by
/// neighborhood queries and never stored.
#[derive(Clone, Copy, Debug)]
pub struct WorldBlock {
    pub block: Block,
    pub pos: GridPos,
}

impl WorldBlock {
    /// The grid coordinate of the block.
    pub fn local_pos(&self) -> (r: GridPos)
        ensures
            r == self.pos,
    {
        self.pos
    }

    /// The world-space position of the block's cell.
    pub fn world_pos(&self) -> (r: Vec3i)
        requires
            self.pos.x <= GRID_CAP_MAX,
            self.pos.y <= GRID_CAP_MAX,
            self.pos.z <= GRID_CAP_MAX,
        ensures
            r == spec_world_pos(self.pos),
    {
        Vec3i { x: (self.pos.x as i64) * DIM, y: (self.pos.y as i64) * DIM, z: (self.pos.z as i64) * DIM }
    }
}

/// The authoritative voxel grid: a dense cube of side `capacity`, stored
/// flat and indexed by `(x * capacity + y) * capacity + z`.
pub struct World {
    pub blocks: Vec<Block>,
    pub capacity: usize,
}

/// The flat backing-store index of a coordinate in a cube of side `cap`.
pub open spec fn flat_index(cap: int, x: int, y: int, z: int) -> int {
    (x * cap + y) * cap + z
}

proof fn lemma_cap_cubed(cap: int)
    by (nonlinear_arith)
    requires
        0 <= cap <= GRID_CAP_MAX,
    ensures
        cap * cap <= 1_000_000,
        cap * cap * cap <= 1_000_000_000,
{
}

proof fn lemma_flat_index_bounds(cap: int, x: int, y: int, z: int)
    by (nonlinear_arith)
    requires
        0 <= x < cap,
        0 <= y < cap,
        0 <= z < cap,
    ensures
        0 <= flat_index(cap, x, y, z) < cap * cap * cap,
        0 <= x * cap <= cap * cap,
        0 <= (x * cap + y) * cap <= cap * cap * cap,
{
}

proof fn lemma_flat_index_injective(cap: int, x: int, y: int, z: int, x2: int, y2: int, z2: int)
    by (nonlinear_arith)
    requires
        0 <= x < cap,
        0 <= y < cap,
        0 <= z < cap,
        0 <= x2 < cap,
        0 <= y2 < cap,
        0 <= z2 < cap,
        flat_index(cap, x, y, z) == flat_index(cap, x2, y2, z2),
    ensures
        x == x2 && y == y2 && z == z2,
{
}

impl World {
    /// Every in-bounds cell holds exactly one block and the side fits the
    /// world-coordinate range.
    pub open spec fn wf(self) -> bool {
        &&& self.capacity <= GRID_CAP_MAX
        &&& self.blocks.len() == self.capacity * self.capacity * self.capacity
    }

    /// The coordinate addresses a cell of the grid.
    pub open spec fn in_bounds(self, p: GridPos) -> bool {
        p.x < self.capacity && p.y < self.capacity && p.z < self.capacity
    }

    /// The block stored at an in-bounds coordinate.
    pub open spec fn spec_block(self, p: GridPos) -> Block {
        self.blocks[flat_index(self.capacity as int, p.x as int, p.y as int, p.z as int)]
    }

    /// The coordinate holds a solid (occupied) cell.
    pub open spec fn solid(self, p: GridPos) -> bool {
        self.in_bounds(p) && self.spec_block(p).is_solid()
    }

    /// Create a grid of side `capacity` with every cell empty.
    pub fn with_capacity(capacity: usize) -> (r: Self)
        requires
            capacity <= GRID_CAP_MAX,
        ensures
            r.wf(),
            r.capacity == capacity,
            forall|p: GridPos| r.in_bounds(p) ==> (#[trigger] r.spec_block(p)).block_type
                == BlockType::Void(0),
    {
        proof {
            lemma_cap_cubed(capacity as int);
        }
        let n = capacity * capacity * capacity;
        let mut blocks: Vec<Block> = Vec::new();
        let mut i: usize = 0;
        while i < n
            invariant
                i <= n,
                blocks.len() == i,
                forall|j: int| 0 <= j < i ==> (#[trigger] blocks[j]).block_type == BlockType::Void(0),
            decreases n - i,
        {
            blocks.push(Block::new(BlockType::Void(0)));
            i = i + 1;
        }
        let r = World { blocks, capacity };
        proof {
            assert forall|p: GridPos| r.in_bounds(p) implies (#[trigger] r.spec_block(p)).block_type
                == BlockType::Void(0) by {
                lemma_flat_index_bounds(capacity as int, p.x as int, p.y as int, p.z as int);
            }
        }
        r
    }

    /// Write a block of the given type at `pos`. Out-of-bounds positions
    /// are deliberately ignored: the grid is left unchanged, and no error
    /// is reported.
    pub fn add_block(&mut self, block_type: BlockType, pos: &GridPos)
        requires
            old(self).wf(),
        ensures
            final(self).wf(),
            final(self).capacity == old(self).capacity,
            old(self).in_bounds(*pos) ==> final(self).spec_block(*pos).block_type == block_type,
            forall|q: GridPos| final(self).in_bounds(q) && q != *pos
                ==> #[trigger] final(self).spec_block(q) == old(self).spec_block(q),
            !old(self).in_bounds(*pos) ==> final(self).blocks@ == old(self).blocks@,
    {
        if pos.x < self.capacity && pos.y < self.capacity && pos.z < self.capacity {
            proof {
                lemma_cap_cubed(self.capacity as int);
                lemma_flat_index_bounds(
                    self.capacity as int,
                    pos.x as int,
                    pos.y as int,
                    pos.z as int,
                );
            }
            let idx = (pos.x * self.capacity + pos.y) * self.capacity + pos.z;
            self.blocks[idx] = Block::new(block_type);
            proof {
                assert forall|q: GridPos| self.in_bounds(q) && q != *pos implies #[trigger] self
                    .spec_block(q) == old(self).spec_block(q) by {
                    lemma_flat_index_bounds(self.capacity as int, q.x as int, q.y as int, q.z as int);
                    if flat_index(self.capacity as int, q.x as int, q.y as int, q.z as int)
                        == flat_index(
                        self.capacity as int,
                        pos.x as int,
                        pos.y as int,
                        pos.z as int,
                    ) {
                        lemma_flat_index_injective(
                            self.capacity as int,
                            q.x as int,
                            q.y as int,
                            q.z as int,
                            pos.x as int,
                            pos.y as int,
                            pos.z as int,
                        );
                    }
                }
            }
        }
    }

    /// `p` lies in the cube of half-width `dim` cells around `center`,
    /// clipped to the grid bounds; both boundary faces of the cube are
    /// included.
    pub open spec fn in_query_cube(self, center: GridPos, dim: int, p: GridPos) -> bool {
        &&& lo_clip(center.x as int, dim) <= p.x < hi_clip(
            center.x as int,
            dim,
            self.capacity as int,
        )
        &&& lo_clip(center.y as int, dim) <= p.y < hi_clip(
            center.y as int,
            dim,
            self.capacity as int,
        )
        &&& lo_clip(center.z as int, dim) <= p.z < hi_clip(
            center.z as int,
            dim,
            self.capacity as int,
        )
    }

    /// Collect every solid cell within the cube of half-width `dim` cells
    /// around `center`, clipped to the grid. The result is sorted in
    /// ascending (x, y, z) order, contains exactly the solid cells of that
    /// cube, and pairs each with its coordinate.
    #[verifier::loop_isolation(false)]
    pub fn blocks(&self, center: &GridPos, dim: usize) -> (r: Vec<WorldBlock>)
        requires
            self.wf(),
            center.x <= 0x1000_0000,
            center.y <= 0x1000_0000,
            center.z <= 0x1000_0000,
            dim <= 0x1000_0000,
        ensures
            forall|i: int| 0 <= i < r@.len() ==> {
                &&& self.in_query_cube(*center, dim as int, (#[trigger] r@[i]).pos)
                &&& self.solid(r@[i].pos)
                &&& r@[i].block == self.spec_block(r@[i].pos)
            },
            forall|p: GridPos| #[trigger] self.in_query_cube(*center, dim as int, p) && self.solid(p)
                ==> exists|i: int| 0 <= i < r@.len() && (#[trigger] r@[i]).pos == p,
            forall|i: int, j: int| 0 <= i < j < r@.len() ==> grid_lex_lt(r@[i].pos, r@[j].pos),
    {
        let lox = if center.x >= dim { center.x - dim } else { 0 };
        let loy = if center.y >= dim { center.y - dim } else { 0 };
        let loz = if center.z >= dim { center.z - dim } else { 0 };
        let cxd = center.x + dim + 1;
        let cyd = center.y + dim + 1;
        let czd = center.z + dim + 1;
        let hix = if cxd <= self.capacity { cxd } else { self.capacity };
        let hiy = if cyd <= self.capacity { cyd } else { self.capacity };
        let hiz = if czd <= self.capacity { czd } else { self.capacity };
        let mut out: Vec<WorldBlock> = Vec::new();
        let mut x = lox;
        while x < hix
            invariant
                lox <= x,
                x <= hix || x == lox,
                forall|i: int| 0 <= i < out@.len() ==> {
                    &&& self.in_query_cube(*center, dim as int, (#[trigger] out@[i]).pos)
                    &&& self.solid(out@[i].pos)
                    &&& out@[i].block == self.spec_block(out@[i].pos)
                    &&& out@[i].pos.x < x
                },
                forall|p: GridPos| #[trigger] self.in_query_cube(*center, dim as int, p)
                    && self.solid(p) && p.x < x ==> exists|i: int|
                    0 <= i < out@.len() && (#[trigger] out@[i]).pos == p,
                forall|i: int, j: int| 0 <= i < j < out@.len() ==> grid_lex_lt(
                    out@[i].pos,
                    out@[j].pos,
                ),
            decreases hix - x,
        {
            let mut y = loy;
            while y < hiy
                invariant
                    lox <= x < hix,
                    loy <= y,
                    y <= hiy || y == loy,
                    forall|i: int| 0 <= i < out@.len() ==> {
                        &&& self.in_query_cube(*center, dim as int, (#[trigger] out@[i]).pos)
                        &&& self.solid(out@[i].pos)
                        &&& out@[i].block == self.spec_block(out@[i].pos)
                        &&& grid_lex_lt(out@[i].pos, GridPos { x, y, z: loz })
                    },
                    forall|p: GridPos| #[trigger] self.in_query_cube(*center, dim as int, p)
                        && self.solid(p) && (p.x < x || (p.x == x && p.y < y)) ==> exists|i: int|
                        0 <= i < out@.len() && (#[trigger] out@[i]).pos == p,
                    forall|i: int, j: int| 0 <= i < j < out@.len() ==> grid_lex_lt(
                        out@[i].pos,
                        out@[j].pos,
                    ),
                decreases hiy - y,
            {
                let mut z = loz;
                while z < hiz
                    invariant
                        lox <= x < hix,
                        loy <= y < hiy,
                        loz <= z,
                        z <= hiz || z == loz,
                        forall|i: int| 0 <= i < out@.len() ==> {
                            &&& self.in_query_cube(*center, dim as int, (#[trigger] out@[i]).pos)
                            &&& self.solid(out@[i].pos)
                            &&& out@[i].block == self.spec_block(out@[i].pos)
                            &&& grid_lex_lt(out@[i].pos, GridPos { x, y, z })
                        },
                        forall|p: GridPos| #[trigger] self.in_query_cube(*center, dim as int, p)
                            && self.solid(p) && (p.x < x || (p.x == x && (p.y < y || (p.y == y
                            && p.z < z)))) ==> exists|i: int|
                            0 <= i < out@.len() && (#[trigger] out@[i]).pos == p,
                        forall|i: int, j: int| 0 <= i < j < out@.len() ==> grid_lex_lt(
                            out@[i].pos,
                            out@[j].pos,
                        ),
                    decreases hiz - z,
                {
                    proof {
                        lemma_cap_cubed(self.capacity as int);
                        lemma_flat_index_bounds(self.capacity as int, x as int, y as int, z as int);
                    }
                    let idx = (x * self.capacity + y) * self.capacity + z;
                    let b = self.blocks[idx];
                    let ghost out0 = out@;
                    if b.solid() {
                        out.push(WorldBlock { block: b, pos: GridPos { x, y, z } });
                    }
                    proof {
                        assert forall|p: GridPos| #[trigger] self.in_query_cube(*center, dim as int, p)
                            && self.solid(p) && (p.x < x || (p.x == x && (p.y < y || (p.y == y && p.z
                            < z + 1)))) implies exists|i: int|
                            0 <= i < out@.len() && (#[trigger] out@[i]).pos == p by {
                            if p.x == x && p.y == y && p.z == z {
                                assert(self.spec_block(p) == b);
                                assert(b.is_solid());
                                assert(out@[out@.len() - 1].pos == p);
                            } else {
                                assert(exists|i: int|
                                    0 <= i < out0.len() && (#[trigger] out0[i]).pos == p);
                                let i0 = choose|i: int|
                                    0 <= i < out0.len() && (#[trigger] out0[i]).pos == p;
                                assert(out@[i0].pos == p);
                            }
                        }
                    }
                    z = z + 1;
                }
                y = y + 1;
            }
            x = x + 1;
        }
        out
    }

    /// Adding a solid block and then querying a neighborhood that covers
    /// its position always reports it: `w1` is a grid state in which a
    /// solid block stands at the in-bounds position `p` (as `add_block`
    /// leaves it), and `r` is any neighborhood query result of `w1` whose
    /// cube covers `p` (sound and complete as `blocks` returns it); then
    /// some entry of `r` carries `p` and is solid.
    pub proof fn lemma_add_then_query_sees_block(
        w1: World,
        p: GridPos,
        center: GridPos,
        dim: int,
        r: Seq<WorldBlock>,
    )
        requires
            w1.wf(),
            w1.in_bounds(p),
            w1.spec_block(p).is_solid(),
            w1.in_query_cube(center, dim, p),
            forall|q: GridPos| #[trigger] w1.in_query_cube(center, dim, q) && w1.solid(q)
                ==> exists|i: int| 0 <= i < r.len() && (#[trigger] r[i]).pos == q,
            forall|i: int| 0 <= i < r.len() ==> (#[trigger] r[i]).block == w1.spec_block(r[i].pos),
        ensures
            exists|i: int| 0 <= i < r.len() && (#[trigger] r[i]).pos == p && r[i].block.is_solid(),
    {
        assert(w1.solid(p));
        let i = choose|i: int| 0 <= i < r.len() && (#[trigger] r[i]).pos == p;
        assert(r[i].block == w1.spec_block(p));
        assert(0 <= i < r.len() && r[i].pos == p && r[i].block.is_solid());
    }

    /// Clear the cell at `pos` back to empty. Out-of-bounds positions are
    /// ignored, symmetric with `add_block`.
    pub fn remove_block(&mut self, pos: &GridPos)
        requires
            old(self).wf(),
        ensures
            final(self).wf(),
            final(self).capacity == old(self).capacity,
            old(self).in_bounds(*pos) ==> final(self).spec_block(*pos).block_type == BlockType::Void(
                0,
            ),
            forall|q: GridPos| final(self).in_bounds(q) && q != *pos
                ==> #[trigger] final(self).spec_block(q) == old(self).spec_block(q),
            !old(self).in_bounds(*pos) ==> final(self).blocks@ == old(self).blocks@,
    {
        self.add_block(BlockType::Void(0), pos);
    }
}

} // verus!
