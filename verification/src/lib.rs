//! Triangle-list assembly for a small 2D renderer.
//!
//! The renderer draws every primitive as an indexed triangle list: a vertex
//! buffer and a buffer of `u16` indices, three per triangle. Where the
//! vertices land on screen is floating-point geometry; which vertices each
//! triangle uses, and how several meshes are packed into one pair of buffers,
//! is integer bookkeeping, and that bookkeeping is what this crate states
//! and proves. Vertex values are generic, so the same code serves any vertex
//! layout.

pub mod mesh;
pub mod shapes;
pub mod assemble;
