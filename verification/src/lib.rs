//! A chunked voxel world: fixed-size chunks with a one-cell halo, buffered
//! edits that a commit applies, border propagation between neighbouring
//! chunks, and surface extraction by face culling.

pub mod vec3;
pub mod voxel;
pub mod directions;
pub mod chunk_position;
pub mod grid;
pub mod chunk_mesh;
pub mod chunk;
pub mod store;
pub mod world;
