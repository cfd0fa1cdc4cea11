//! Chunk mesh baking, block variant resolution and render graph planning for a
//! voxel renderer.
//!
//! The library holds the logic; GPU objects are referred to by integer handles
//! that the host maps to its own resources.
//!
//! - [`mesh`]: baked block geometry and its mathematical model.
//! - [`block`]: blocks, their variant tables and multipart mesh caches, and
//!   resolution of state properties to a mesh and a stable handle.
//! - [`chunk`]: the baker, which emits the visible faces of a chunk, with the
//!   scan it performs stated as a spec and the laws it obeys.
//! - [`grid`]: a block-state provider holding one chunk of cells.
//! - [`resources`]: resource backings and the bind-group entries they give.
//! - [`graph`]: the shader-pack configuration and its compilation into bound
//!   pipelines.
//! - [`frame`]: the passes of a frame, terrain draws and push constants.

pub mod mesh;
pub mod window;
pub mod block;
pub mod chunk;
pub mod grid;
pub mod resources;
pub mod graph;
pub mod frame;

pub use window::{HasWindowSize, WindowSize};
