use vstd::prelude::*;

verus! {

/// Renders cuboids using the "vertex pulling" technique: the vertex shader
/// reads each cuboid's corners from a storage buffer instead of a mesh.
#[derive(Debug, Default, Clone, Copy)]
pub struct VertexPullingRenderPlugin {
    /// Draw the cuboid outlines too.
    pub outlines: bool,
}

} // verus!
