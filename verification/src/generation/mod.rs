//! Terrain generation: passes that fill a freshly made bounded world through
//! its write interface. Each pass says, tile by tile, what the world holds
//! afterwards. Heights and masks that come out of noise functions are handed
//! in as plain values; coin tosses are drawn here.

pub mod bedrock;
pub mod border;
pub mod caves;
pub mod dice;
pub mod dirt;
pub mod stone;
pub mod surface;
pub mod uni;
