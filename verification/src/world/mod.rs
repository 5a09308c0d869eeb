//! Chunk storage: packed bits, paletted containers, columns and the generators
//! that fill them.
//!
//! Chunk storage sets the memory footprint of a server, and chunk serialization
//! is the single largest thing the network layer ever sends. Everything here is
//! built around that: paletted containers that cost nothing for uniform
//! sections, and packed bit storage with the division turned into a multiply.

pub mod bitstorage;
pub mod block;
pub mod chunk;
pub mod format;
pub mod generator;
pub mod palette;
pub mod shape;

pub use bitstorage::BitStorage;
pub use block::BlockStates;
pub use chunk::{Chunk, ChunkSection, HeightLimits, Heightmaps};
pub use generator::{ChunkGenerator, FlatGenerator, VoidGenerator};
pub use palette::{ContainerKind, PalettedContainer};
