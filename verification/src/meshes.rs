//! The immutable mesh resources of the renderer.
//!
//! The shared cube mesh is constructed explicitly here, owned by the
//! top-level assembly and passed by reference to whatever draws it: no
//! hidden global initialization.

use vstd::prelude::*;

use crate::mesh::Mesh;
use crate::vertex::Vertex;
use crate::{DIM, SCALE};

verus! {

/// The vertex sits on a corner of the cube of edge `DIM` centered at the
/// origin.
pub open spec fn is_cube_corner(v: Vertex) -> bool {
    &&& (v.pos[0] == DIM / 2 || v.pos[0] == -(DIM / 2))
    &&& (v.pos[1] == DIM / 2 || v.pos[1] == -(DIM / 2))
    &&& (v.pos[2] == DIM / 2 || v.pos[2] == -(DIM / 2))
}

/// The corner with the given coordinate signs appears among the vertices.
pub open spec fn has_corner(s: Seq<Vertex>, sx: bool, sy: bool, sz: bool) -> bool {
    exists|i: int|
        0 <= i < s.len() && (#[trigger] s[i]).pos[0] == (if sx {
            DIM / 2
        } else {
            -(DIM / 2)
        }) && s[i].pos[1] == (if sy {
            DIM / 2
        } else {
            -(DIM / 2)
        }) && s[i].pos[2] == (if sz {
            DIM / 2
        } else {
            -(DIM / 2)
        })
}

/// Face `f` is drawn as two triangles over its four consecutive vertices,
/// in the fixed pattern `b, b+1, b+2, b+2, b+1, b+3` with `b = 4 * f`.
pub open spec fn face_indices(s: Seq<u32>, f: int) -> bool {
    &&& s[6 * f] == 4 * f
    &&& s[6 * f + 1] == 4 * f + 1
    &&& s[6 * f + 2] == 4 * f + 2
    &&& s[6 * f + 3] == 4 * f + 2
    &&& s[6 * f + 4] == 4 * f + 1
    &&& s[6 * f + 5] == 4 * f + 3
}

/// The meshes the renderer draws; today only the shared block cube.
pub struct Meshes {
    pub block: Mesh,
}

impl Meshes {
    /// Build the block mesh: a cube of edge `DIM` centered on the origin,
    /// four vertices and two triangles per face, with outward normals and
    /// full-tile texture coordinates.
    pub fn load() -> (r: Meshes)
        ensures
            r.block.wf(),
            r.block.vertex_info@.len() == 24,
            r.block.indices@.len() == 36,
            forall|i: int| 0 <= i < r.block.vertex_info@.len() ==> is_cube_corner(
                #[trigger] r.block.vertex_info@[i],
            ),
            forall|sx: bool, sy: bool, sz: bool| #[trigger] has_corner(
                r.block.vertex_info@,
                sx,
                sy,
                sz,
            ),
            forall|f: int| 0 <= f < 6 ==> #[trigger] face_indices(r.block.indices@, f),
    {
        let h = DIM / 2;
        let mut vs: Vec<Vertex> = Vec::new();
        // +x face
        vs.push(Vertex::new([h, -h, -h], [0, 0], [SCALE, 0, 0]));
        vs.push(Vertex::new([h, h, -h], [0, SCALE], [SCALE, 0, 0]));
        vs.push(Vertex::new([h, -h, h], [SCALE, 0], [SCALE, 0, 0]));
        vs.push(Vertex::new([h, h, h], [SCALE, SCALE], [SCALE, 0, 0]));
        // -x face
        vs.push(Vertex::new([-h, -h, h], [0, 0], [-SCALE, 0, 0]));
        vs.push(Vertex::new([-h, h, h], [0, SCALE], [-SCALE, 0, 0]));
        vs.push(Vertex::new([-h, -h, -h], [SCALE, 0], [-SCALE, 0, 0]));
        vs.push(Vertex::new([-h, h, -h], [SCALE, SCALE], [-SCALE, 0, 0]));
        // +y face
        vs.push(Vertex::new([-h, h, -h], [0, 0], [0, SCALE, 0]));
        vs.push(Vertex::new([-h, h, h], [0, SCALE], [0, SCALE, 0]));
        vs.push(Vertex::new([h, h, -h], [SCALE, 0], [0, SCALE, 0]));
        vs.push(Vertex::new([h, h, h], [SCALE, SCALE], [0, SCALE, 0]));
        // -y face
        vs.push(Vertex::new([-h, -h, h], [0, 0], [0, -SCALE, 0]));
        vs.push(Vertex::new([-h, -h, -h], [0, SCALE], [0, -SCALE, 0]));
        vs.push(Vertex::new([h, -h, h], [SCALE, 0], [0, -SCALE, 0]));
        vs.push(Vertex::new([h, -h, -h], [SCALE, SCALE], [0, -SCALE, 0]));
        // +z face
        vs.push(Vertex::new([h, -h, h], [0, 0], [0, 0, SCALE]));
        vs.push(Vertex::new([h, h, h], [0, SCALE], [0, 0, SCALE]));
        vs.push(Vertex::new([-h, -h, h], [SCALE, 0], [0, 0, SCALE]));
        vs.push(Vertex::new([-h, h, h], [SCALE, SCALE], [0, 0, SCALE]));
        // -z face
        vs.push(Vertex::new([-h, -h, -h], [0, 0], [0, 0, -SCALE]));
        vs.push(Vertex::new([-h, h, -h], [0, SCALE], [0, 0, -SCALE]));
        vs.push(Vertex::new([h, -h, -h], [SCALE, 0], [0, 0, -SCALE]));
        vs.push(Vertex::new([h, h, -h], [SCALE, SCALE], [0, 0, -SCALE]));

        proof {
            assert forall|sx: bool, sy: bool, sz: bool| #[trigger] has_corner(
                vs@,
                sx,
                sy,
                sz,
            ) by {
                assert(vs@[3].pos[0] == DIM / 2 && vs@[3].pos[1] == DIM / 2 && vs@[3].pos[2]
                    == DIM / 2);
                assert(vs@[1].pos[0] == DIM / 2 && vs@[1].pos[1] == DIM / 2 && vs@[1].pos[2]
                    == -(DIM / 2));
                assert(vs@[2].pos[0] == DIM / 2 && vs@[2].pos[1] == -(DIM / 2) && vs@[2].pos[2]
                    == DIM / 2);
                assert(vs@[0].pos[0] == DIM / 2 && vs@[0].pos[1] == -(DIM / 2) && vs@[0].pos[2]
                    == -(DIM / 2));
                assert(vs@[5].pos[0] == -(DIM / 2) && vs@[5].pos[1] == DIM / 2 && vs@[5].pos[2]
                    == DIM / 2);
                assert(vs@[7].pos[0] == -(DIM / 2) && vs@[7].pos[1] == DIM / 2 && vs@[7].pos[2]
                    == -(DIM / 2));
                assert(vs@[4].pos[0] == -(DIM / 2) && vs@[4].pos[1] == -(DIM / 2) && vs@[4].pos[2]
                    == DIM / 2);
                assert(vs@[6].pos[0] == -(DIM / 2) && vs@[6].pos[1] == -(DIM / 2) && vs@[6].pos[2]
                    == -(DIM / 2));
            }
        }
        let mut ids: Vec<u32> = Vec::new();
        let mut f: usize = 0;
        while f < 6
            invariant
                f <= 6,
                ids@.len() == 6 * f,
                forall|i: int| 0 <= i < ids@.len() ==> (#[trigger] ids@[i]) < 24,
                forall|g: int| 0 <= g < f ==> #[trigger] face_indices(ids@, g),
            decreases 6 - f,
        {
            let ghost ids0 = ids@;
            let b = (4 * f) as u32;
            ids.push(b);
            ids.push(b + 1);
            ids.push(b + 2);
            ids.push(b + 2);
            ids.push(b + 1);
            ids.push(b + 3);
            proof {
                assert forall|g: int| 0 <= g < f + 1 implies #[trigger] face_indices(ids@, g) by {
                    if g < f {
                        assert(face_indices(ids0, g));
                        assert(ids@[6 * g] == ids0[6 * g]);
                        assert(ids@[6 * g + 1] == ids0[6 * g + 1]);
                        assert(ids@[6 * g + 2] == ids0[6 * g + 2]);
                        assert(ids@[6 * g + 3] == ids0[6 * g + 3]);
                        assert(ids@[6 * g + 4] == ids0[6 * g + 4]);
                        assert(ids@[6 * g + 5] == ids0[6 * g + 5]);
                    } else {
                        assert(ids@[6 * g] == b);
                        assert(ids@[6 * g + 1] == b + 1);
                        assert(ids@[6 * g + 2] == b + 2);
                        assert(ids@[6 * g + 3] == b + 2);
                        assert(ids@[6 * g + 4] == b + 1);
                        assert(ids@[6 * g + 5] == b + 3);
                    }
                }
            }
            f = f + 1;
        }
        Meshes { block: Mesh { vertex_info: vs, indices: ids } }
    }
}

} // verus!
