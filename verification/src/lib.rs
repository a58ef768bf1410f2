//! Core data structures and parsers of a small game engine: object pools
//! with generational handles, a bump arena, keyboard state, a glTF subset
//! reader, level-of-detail bookkeeping, mesh index generation and helpers
//! for splitting particle work into chunks, and the shared world's particle
//! limit.
use vstd::prelude::*;

pub mod memory;
pub mod gltf;
pub mod keyboard;
pub mod mouse;
pub mod textures;
pub mod rng;
pub mod worker;
pub mod lod;
pub mod mesh;
pub mod entity;
pub mod world;

verus! {

} // verus!
