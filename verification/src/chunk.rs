//! Chunk building: the tile buffer for one chunk of the planet.
//!
//! A chunk is a `chunk_size` x `chunk_size` block of tiles whose origin is
//! given in planet tile units.  Its buffer is row-major with `y` outer and
//! `x` inner: the flat offset `i` holds the cell `(i % chunk_size,
//! i / chunk_size)`.  The buffer is a pure function of seed, planet extents
//! and origin, which is what makes recycling a chunk slot safe.

use vstd::prelude::*;
use crate::generator::TilemapGenerator;
use crate::planet::{PlanetPosition, COORD_LIMIT};
use crate::tileset::TilesetAssets;
use vstd::arithmetic::div_mod::{
    lemma_fundamental_div_mod_converse_div, lemma_fundamental_div_mod_converse_mod,
};

verus! {

/// Offset mixed into the level seed for the terrain stream, so terrain
/// decisions do not reuse the raw seed other level systems see.  Wraps.
pub const CHUNK_SEED_OFFSET: u32 = 33;

/// Pixel edge length of one chunk.
pub open spec fn chunk_pixel_size_spec(tileset: TilesetAssets) -> int {
    tileset.chunk_size as int * tileset.tile_size as int
}

pub fn chunk_pixel_size(tileset: &TilesetAssets) -> (r: u64)
    ensures
        r == chunk_pixel_size_spec(*tileset),
{
    proof {
        assert(tileset.chunk_size as int * tileset.tile_size as int <= u64::MAX)
            by (nonlinear_arith)
            requires
                tileset.chunk_size <= u32::MAX,
                tileset.tile_size <= u32::MAX,
        ;
    }
    tileset.chunk_size as u64 * tileset.tile_size as u64
}

/// The generator a level's terrain is sampled from.
pub open spec fn chunk_generator_spec(seed: u32, planet_width: u32, planet_height: u32)
    -> TilemapGenerator {
    TilemapGenerator {
        seed: seed.wrapping_add(CHUNK_SEED_OFFSET),
        planet_width,
        planet_height,
    }
}

/// The planet position of flat cell `i` of a chunk at `chunk_origin`.
pub open spec fn chunk_cell_spec(chunk_origin: PlanetPosition, chunk_size: int, i: int)
    -> PlanetPosition {
    PlanetPosition {
        x: (chunk_origin.x + i % chunk_size) as i64,
        y: (chunk_origin.y + i / chunk_size) as i64,
    }
}

/// The full tile buffer of the chunk at `chunk_origin`: one atlas index (or
/// `None`) per cell, in row-major order with `y` outer.
pub open spec fn chunk_tiles_spec(
    seed: u32,
    planet_width: u32,
    planet_height: u32,
    chunk_origin: PlanetPosition,
    tileset: TilesetAssets,
) -> Seq<Option<u16>> {
    let ctx = chunk_generator_spec(seed, planet_width, planet_height);
    let cs = tileset.chunk_size as int;
    Seq::new(
        (cs * cs) as nat,
        |i: int| tileset.get_tile_spec(ctx, chunk_cell_spec(chunk_origin, cs, i)),
    )
}

/// Builds the tile buffer for the chunk at `chunk_origin`, of length
/// `chunk_size` squared, sampling the generator once per cell.  Repeated
/// calls with the same arguments produce the identical buffer.
pub fn chunk_tile_data(
    seed: u32,
    planet_width: u32,
    planet_height: u32,
    chunk_origin: PlanetPosition,
    tileset: &TilesetAssets,
) -> (r: Vec<Option<u16>>)
    requires
        tileset.wf(),
        planet_width >= 1,
        planet_height >= 1,
        -COORD_LIMIT <= chunk_origin.x <= COORD_LIMIT,
        -COORD_LIMIT <= chunk_origin.y <= COORD_LIMIT,
    ensures
        r@ == chunk_tiles_spec(seed, planet_width, planet_height, chunk_origin, *tileset),
        r@.len() == tileset.chunk_size * tileset.chunk_size,
{
    let ctx = TilemapGenerator::new(
        seed.wrapping_add(CHUNK_SEED_OFFSET),
        planet_width,
        planet_height,
    );
    let cs: u32 = tileset.chunk_size;
    let ghost target: Seq<Option<u16>> = chunk_tiles_spec(
        seed,
        planet_width,
        planet_height,
        chunk_origin,
        *tileset,
    );
    let mut tiles: Vec<Option<u16>> = Vec::new();
    let mut y: u32 = 0;
    while y < cs
        invariant
            tileset.wf(),
            ctx == chunk_generator_spec(seed, planet_width, planet_height),
            ctx.wf(),
            cs == tileset.chunk_size,
            cs <= 0xFFFF,
            -COORD_LIMIT <= chunk_origin.x <= COORD_LIMIT,
            -COORD_LIMIT <= chunk_origin.y <= COORD_LIMIT,
            0 <= y <= cs,
            tiles@.len() == y * cs,
            target == chunk_tiles_spec(seed, planet_width, planet_height, chunk_origin, *tileset),
            forall|i: int| 0 <= i < tiles@.len() ==> tiles@[i] == target[i],
        decreases cs - y,
    {
        let mut x: u32 = 0;
        while x < cs
            invariant
                tileset.wf(),
                ctx == chunk_generator_spec(seed, planet_width, planet_height),
                ctx.wf(),
                cs == tileset.chunk_size,
                cs <= 0xFFFF,
                -COORD_LIMIT <= chunk_origin.x <= COORD_LIMIT,
                -COORD_LIMIT <= chunk_origin.y <= COORD_LIMIT,
                0 <= x <= cs,
                y < cs,
                tiles@.len() == y * cs + x,
                target == chunk_tiles_spec(
                    seed,
                    planet_width,
                    planet_height,
                    chunk_origin,
                    *tileset,
                ),
                forall|i: int| 0 <= i < tiles@.len() ==> tiles@[i] == target[i],
            decreases cs - x,
        {
            let pos = PlanetPosition {
                x: chunk_origin.x + x as i64,
                y: chunk_origin.y + y as i64,
            };
            let t: Option<u16> = tileset.get_tile(&ctx, pos);
            proof {
                let j: int = y * cs + x;
                lemma_fundamental_div_mod_converse_div(j, cs as int, y as int, x as int);
                lemma_fundamental_div_mod_converse_mod(j, cs as int, y as int, x as int);
                assert(j < cs * cs) by (nonlinear_arith)
                    requires
                        j == y * cs + x,
                        0 <= x < cs,
                        0 <= y < cs,
                ;
                assert(chunk_cell_spec(chunk_origin, cs as int, j) == pos);
            }
            tiles.push(t);
            x = x + 1;
        }
        proof {
            assert((y + 1) * cs == y * cs + cs) by (nonlinear_arith);
        }
        y = y + 1;
    }
    proof {
        assert(tiles@ =~= target);
    }
    tiles
}

/// Law: chunk building is deterministic.  Two buffers built from identical
/// seed, planet extents, chunk origin and tileset are equal element for
/// element.
pub proof fn lemma_build_chunk_deterministic(
    b1: Seq<Option<u16>>,
    b2: Seq<Option<u16>>,
    seed: u32,
    planet_width: u32,
    planet_height: u32,
    chunk_origin: PlanetPosition,
    tileset: TilesetAssets,
)
    requires
        b1 == chunk_tiles_spec(seed, planet_width, planet_height, chunk_origin, tileset),
        b2 == chunk_tiles_spec(seed, planet_width, planet_height, chunk_origin, tileset),
    ensures
        b1 == b2,
{
}

} // verus!
