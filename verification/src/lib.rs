//! Verified core of a wrapping (toroidal) procedural planet tilemap.
//!
//! The planet is a finite grid of tiles that wraps on both axes.  Terrain is
//! generated deterministically from a seed, chunk by chunk; a fixed pool of
//! nine chunks is recycled as the player moves, and world coordinates are
//! periodically recentered so their magnitude stays bounded.

pub mod chunk;
pub mod generator;
pub mod layer;
pub mod level;
pub mod planet;
pub mod recenter;
pub mod scroll;
pub mod texture;
pub mod tileset;
