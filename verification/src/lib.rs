//! Core of a chunked voxel world, verified with Verus.
//!
//! The world is made of chunks of 16 x 256 x 16 blocks. The library holds
//! the block catalog, the storage of a chunk with its height cache and its
//! packed light field, the generator that makes a chunk from a seed and
//! sampled noise, the lighting engine, and the world that streams chunks
//! around a position and casts rays against them. Around the world stand
//! the inventory of a player and the rules by which blocks are broken and
//! placed.
//!
//! Everything here counts in whole numbers. Noise reaches the generator in
//! millionths, rays are measured in thousandths of a block, and times in
//! milliseconds: what is a fraction elsewhere is brought to these units
//! before it enters the library.
//!
//! Each module states what its types hold as a view, what its functions do
//! as functions of these views, and proves the laws that hold of them.

pub mod audio;
pub mod block;
pub mod chunk;
pub mod game;
pub mod generation;
pub mod inventory;
pub mod lighting;
pub mod networking;
pub mod rendering;
pub mod rng;
pub mod utils;
pub mod world;
