# wgpu_renderer

A small 2D renderer that draws rectangles, lines, circles and cubic Bézier
curves with wgpu, each primitive as an indexed triangle list.

- `src/` is the verified library. It holds the integer side of tessellation,
  generic over the vertex type: the quad and closed-fan index buffers, the
  pairing of polyline points into segments, and the packing of several meshes
  into one vertex and `u16` index buffer (`mesh.rs` holds the model,
  `shapes.rs` the primitives, `assemble.rs` the packing and its laws).
- `app/` is the program: the `Vertex` type, the floating-point geometry
  (corner positions, circle rim, Bézier subdivision), and the GPU pipeline
  and draw calls.
- `tests/` runs the library on concrete meshes.
