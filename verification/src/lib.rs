//! Chunked tile storage and chunk streaming for a two-dimensional sandbox world.
//!
//! The world is a sparse grid of fixed-size chunks of tiles. Positions come in
//! three coordinate systems (world tiles, chunks, tiles within a chunk), and a
//! streaming table decides which chunks are shown around a moving load point.

pub mod blocks;
pub mod position;
pub mod chunk;
pub mod storage;
pub mod table;
pub mod chunks;
pub mod generation;
