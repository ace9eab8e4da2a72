use vstd::prelude::*;

verus! {

/// Label of the render graph node that draws the opaque cuboid phase.
#[derive(Debug, Hash, PartialEq, Eq, Clone, Copy, Structural)]
pub struct AabbOpaquePass3dLabel;

/// The render graph node that draws the opaque cuboid phase of a view.
#[derive(Debug, Default, Clone, Copy)]
pub struct AabbOpaquePass3dNode;

} // verus!
