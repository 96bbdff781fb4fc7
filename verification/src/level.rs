//! Level configuration and its load-time validation.
//!
//! Seam continuity and chunk recycling both depend on the planet extents
//! dividing evenly into chunks and on the chunk grid being at least 3 wide
//! on each axis, so a malformed configuration is rejected before any chunk
//! is built rather than degraded at runtime.

use vstd::prelude::*;
use crate::tileset::TilesetAssets;

verus! {

/// Per-level terrain configuration: the seed and the planet extents in tiles.
#[derive(Clone, Copy, Debug, PartialEq, Eq, Structural)]
pub struct LevelAssets {
    pub seed: u32,
    pub planet_width: u32,
    pub planet_height: u32,
}

/// A configuration fault found at load time; the level refuses to start.
#[derive(Clone, Copy, Debug, PartialEq, Eq, Structural)]
pub enum ConfigError {
    /// A planet extent, the tile size or the chunk size is zero.
    ZeroDimension,
    /// The tileset catalog is malformed: a region is inverted, lies outside
    /// the atlas row, or its flat index does not fit a tile index.
    BadTileset,
    /// A planet extent in pixels does not fit the pixel arithmetic.
    ExtentTooLarge,
    /// A planet extent is not a whole number of chunks.
    NotDivisible,
    /// The chunk grid is narrower than the 3x3 neighborhood on some axis.
    GridTooSmall,
}

/// The whole configuration is sound: the tileset catalog is well formed, the
/// planet is a whole, at-least-3x3 grid of chunks, and pixel extents fit.
pub open spec fn config_wf(level: LevelAssets, tileset: TilesetAssets) -> bool {
    &&& tileset.wf()
    &&& level.planet_width >= 1
    &&& level.planet_height >= 1
    &&& level.planet_width * tileset.tile_size <= u32::MAX
    &&& level.planet_height * tileset.tile_size <= u32::MAX
    &&& level.planet_width % tileset.chunk_size == 0
    &&& level.planet_height % tileset.chunk_size == 0
    &&& level.planet_width / tileset.chunk_size >= 3
    &&& level.planet_height / tileset.chunk_size >= 3
}

/// The validation verdict, with one error reported per fault class, in a
/// fixed order of precedence.
pub open spec fn config_check_spec(level: LevelAssets, tileset: TilesetAssets) -> Result<
    (),
    ConfigError,
> {
    if level.planet_width == 0 || level.planet_height == 0 || tileset.tile_size == 0
        || tileset.chunk_size == 0 {
        Err(ConfigError::ZeroDimension)
    } else if !tileset.wf() {
        Err(ConfigError::BadTileset)
    } else if level.planet_width * tileset.tile_size > u32::MAX
        || level.planet_height * tileset.tile_size > u32::MAX {
        Err(ConfigError::ExtentTooLarge)
    } else if level.planet_width % tileset.chunk_size != 0
        || level.planet_height % tileset.chunk_size != 0 {
        Err(ConfigError::NotDivisible)
    } else if level.planet_width / tileset.chunk_size < 3
        || level.planet_height / tileset.chunk_size < 3 {
        Err(ConfigError::GridTooSmall)
    } else {
        Ok(())
    }
}

/// Validates a level and tileset pair.  Returns `Ok` exactly on the
/// configurations on which every terrain operation is defined.
pub fn validate_config(level: &LevelAssets, tileset: &TilesetAssets) -> (r: Result<
    (),
    ConfigError,
>)
    ensures
        r == config_check_spec(*level, *tileset),
        r is Ok <==> config_wf(*level, *tileset),
{
    proof {
        assert(level.planet_width as int * tileset.tile_size as int <= u64::MAX) by (nonlinear_arith)
            requires
                level.planet_width <= u32::MAX,
                tileset.tile_size <= u32::MAX,
        ;
        assert(level.planet_height as int * tileset.tile_size as int <= u64::MAX)
            by (nonlinear_arith)
            requires
                level.planet_height <= u32::MAX,
                tileset.tile_size <= u32::MAX,
        ;
    }
    if level.planet_width == 0 || level.planet_height == 0 || tileset.tile_size == 0
        || tileset.chunk_size == 0 {
        Err(ConfigError::ZeroDimension)
    } else if !tileset.check_wf() {
        Err(ConfigError::BadTileset)
    } else if level.planet_width as u64 * tileset.tile_size as u64 > u32::MAX as u64
        || level.planet_height as u64 * tileset.tile_size as u64 > u32::MAX as u64 {
        Err(ConfigError::ExtentTooLarge)
    } else if level.planet_width % tileset.chunk_size != 0
        || level.planet_height % tileset.chunk_size != 0 {
        Err(ConfigError::NotDivisible)
    } else if level.planet_width / tileset.chunk_size < 3
        || level.planet_height / tileset.chunk_size < 3 {
        Err(ConfigError::GridTooSmall)
    } else {
        Ok(())
    }
}

} // verus!
