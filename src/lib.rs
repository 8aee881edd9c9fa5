//! Procedural heightfield terrain: a grid of elevation samples, point queries
//! into it, and the triangle and line meshes built over it.
//!
//! Elevation samples and query coordinates are IEEE-754 binary32 values. The
//! library does no arithmetic on them, so it holds each one as its bit
//! pattern (`u32`, as given by `f32::to_bits`).

pub mod binary32;
pub mod grid;
pub mod layers;
pub mod mesh;
pub mod terrain;

pub use terrain::{GenerationState, Position, Terrain};
pub use layers::Layers;
pub use mesh::{build_solid, build_wireframe, Mesh, Topology};
