//! The core of a voxel sandbox world.
//!
//! A world is a sparse set of 16 by 16 by 16 chunks of blocks. Chunks are
//! filled from terrain heights, meshed into quads for every face between a
//! solid block and air, and turned into collision shapes that ray casts pick
//! blocks from. A dirty list tracks the chunks whose mesh and collision shape
//! must be rebuilt after an edit.

pub mod block;
pub mod chunk;
pub mod mesh;
pub mod mesher;
pub mod world;
