# aabb_vertex_pulling

Render-world logic for drawing axis-aligned cuboids with vertex pulling,
verified with Verus.

- `src/index_buffer.rs`: the cuboid index table (three faces, two triangles
  each, corner and face packed into five bits) and its byte image, in the
  target's native byte order, for the GPU index buffer.
- `src/clipping.rs`: packing clipping plane ranges into the fixed GPU table.
- `src/cuboid_cache.rs`: the per-entity buffer cache; whether a frame runs
  at all, which entities it extracts, how their entries are updated, and culling of the entities that
  were not extracted.
- `src/queue.rs`: which visible entities a view draws, with which pipeline and
  change tick.
- `src/node.rs`, `src/plugin.rs`: the plain render-graph label, node and
  plugin types.

`app/` holds the Bevy systems, GPU buffers, render graph node and plugin that
call the library; it builds inside the full renderer crate, whose other modules
(buffers, draw, pipeline, prepare, phase, cuboids, clipping planes, materials)
it refers to.
