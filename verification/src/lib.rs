//! Render-world logic for drawing axis-aligned cuboids by vertex pulling:
//! the index table of a cuboid, the per-entity buffer cache that extraction
//! fills and culls, the selection of what each view draws, and the packing of
//! clipping plane ranges.

pub mod clipping;
pub mod cuboid_cache;
pub mod index_buffer;
pub mod node;
pub mod plugin;
pub mod queue;

pub use clipping::{pack_clipping_planes, PackedClippingPlanes, TooManyClippingPlanes, MAX_CLIPPING_PLANES};
pub use cuboid_cache::{plan_extraction, plan_frame, CachedCuboids, CuboidBufferCache, CuboidsSnapshot};
pub use index_buffer::{cube_index_bytes, cube_index_bytes_for_probe, u32s_to_bytes, CUBE_INDICES, NUM_CUBE_INDICES};
pub use node::{AabbOpaquePass3dLabel, AabbOpaquePass3dNode};
pub use plugin::VertexPullingRenderPlugin;
pub use queue::QueuedCuboids;
