use planet_tilemap::chunk::{chunk_pixel_size, chunk_tile_data, CHUNK_SEED_OFFSET};
use planet_tilemap::generator::TilemapGenerator;
use planet_tilemap::planet::PlanetPosition;
use planet_tilemap::tileset::{
    Ground, GroundTilesetWithVariant, Tileset, TilesetAssets, U16Vec2,
};

fn region(fx: u16, fy: u16, tx: u16, ty: u16) -> Tileset {
    Tileset { from: U16Vec2 { x: fx, y: fy }, to: U16Vec2 { x: tx, y: ty } }
}

fn tileset() -> TilesetAssets {
    TilesetAssets {
        tile_size: 32,
        chunk_size: 100,
        width: 320,
        dirt_red: Some(GroundTilesetWithVariant {
            tiles: region(0, 0, 1, 1),
            variants: Some(region(4, 0, 5, 1)),
        }),
        dirt_brown: Some(GroundTilesetWithVariant {
            tiles: region(2, 0, 3, 1),
            variants: None,
        }),
    }
}

#[test]
fn chunk_pixel_size_is_product() {
    assert_eq!(chunk_pixel_size(&tileset()), 3200);
}

#[test]
fn get_tile_concrete_values() {
    let ts = tileset();
    let g = TilemapGenerator::new(7, 900, 900);
    assert_eq!(ts.get_tile(&g, PlanetPosition { x: 0, y: 0 }), Some(13));
    assert_eq!(ts.get_tile(&g, PlanetPosition { x: 5, y: 6 }), Some(2));
    assert_eq!(ts.get_tile(&g, PlanetPosition { x: 7, y: 7 }), Some(5));
    assert_eq!(ts.get_tile(&g, PlanetPosition { x: 1, y: 2 }), Some(5));
}

#[test]
fn get_tile_missing_entry_is_none() {
    let mut ts = tileset();
    ts.dirt_brown = None;
    let g = TilemapGenerator::new(7, 900, 900);
    // (0, 0) resolves to DirtBrown, which now has no catalog entry.
    assert_eq!(g.ground_type(PlanetPosition { x: 0, y: 0 }), Ground::DirtBrown);
    assert_eq!(ts.get_tile(&g, PlanetPosition { x: 0, y: 0 }), None);
    // A DirtRed cell still renders.
    assert_eq!(ts.get_tile(&g, PlanetPosition { x: 7, y: 7 }), Some(5));
}

#[test]
fn build_chunk_is_deterministic() {
    // Two builds from identical arguments are byte-identical.
    let ts = tileset();
    let origin = PlanetPosition { x: 100, y: 800 };
    let a = chunk_tile_data(33, 900, 900, origin, &ts);
    let b = chunk_tile_data(33, 900, 900, origin, &ts);
    assert_eq!(a.len(), 100 * 100);
    assert_eq!(a, b);
}

#[test]
fn chunk_cells_match_catalog_row_major() {
    // The buffer is row-major with y outer: offset i holds the cell
    // (i % chunk_size, i / chunk_size), resolved through the catalog with
    // the chunk seed stream.
    let mut ts = tileset();
    ts.chunk_size = 8;
    let seed = 33u32;
    let origin = PlanetPosition { x: 896, y: 896 };
    let buf = chunk_tile_data(seed, 900, 900, origin, &ts);
    assert_eq!(buf.len(), 64);
    let g = TilemapGenerator::new(seed.wrapping_add(CHUNK_SEED_OFFSET), 900, 900);
    for i in 0..64usize {
        let cell = PlanetPosition {
            x: origin.x + (i % 8) as i64,
            y: origin.y + (i / 8) as i64,
        };
        assert_eq!(buf[i], ts.get_tile(&g, cell));
    }
}

#[test]
fn chunk_wraps_across_the_seam() {
    // A chunk origin shifted by a whole planet extent builds the same
    // buffer.
    let mut ts = tileset();
    ts.chunk_size = 4;
    let a = chunk_tile_data(5, 64, 64, PlanetPosition { x: 60, y: 0 }, &ts);
    let b = chunk_tile_data(5, 64, 64, PlanetPosition { x: -4, y: 64 }, &ts);
    assert_eq!(a, b);
}
