//! A procedural "living map" simulator: a cellular automaton over a square
//! tile grid, bounded by a reality bubble around the player, with campfire
//! and structure protection, autotiling, and Poisson-disk structure placement.

pub mod decay;
mod rng;
pub mod structures;
pub mod tilemap;
pub mod tiles;
pub mod tilesim;
pub mod utils;

pub use utils::TilePos;
