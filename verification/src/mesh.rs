//! Mesh data: vertices plus triangle indices.

use vstd::prelude::*;

use crate::vertex::Vertex;

verus! {

/// A triangle mesh: vertex attributes and indices into them.
#[derive(Debug)]
pub struct Mesh {
    pub vertex_info: Vec<Vertex>,
    pub indices: Vec<u32>,
}

impl Mesh {
    /// Every index addresses a vertex, so the renderer can never read past
    /// the vertex buffer.
    pub open spec fn wf(self) -> bool {
        forall|i: int| 0 <= i < self.indices@.len() ==> (#[trigger] self.indices@[i])
            < self.vertex_info@.len()
    }

    pub fn new() -> (r: Mesh)
        ensures
            r.vertex_info@.len() == 0,
            r.indices@.len() == 0,
            r.wf(),
    {
        Mesh { vertex_info: Vec::new(), indices: Vec::new() }
    }
}

} // verus!
