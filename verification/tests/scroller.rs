use planet_tilemap::level::LevelAssets;
use planet_tilemap::scroll::{spawn_tilemap, Tilemap};
use planet_tilemap::tileset::{
    GroundTilesetWithVariant, Tileset, TilesetAssets, U16Vec2,
};

fn region(fx: u16, fy: u16, tx: u16, ty: u16) -> Tileset {
    Tileset { from: U16Vec2 { x: fx, y: fy }, to: U16Vec2 { x: tx, y: ty } }
}

fn tileset() -> TilesetAssets {
    TilesetAssets {
        tile_size: 32,
        chunk_size: 100,
        width: 320,
        dirt_red: Some(GroundTilesetWithVariant {
            tiles: region(0, 0, 1, 1),
            variants: Some(region(4, 0, 5, 1)),
        }),
        dirt_brown: Some(GroundTilesetWithVariant {
            tiles: region(2, 0, 3, 1),
            variants: None,
        }),
    }
}

fn level() -> LevelAssets {
    LevelAssets { seed: 33, planet_width: 900, planet_height: 900 }
}

fn sorted_coords(t: &Tilemap) -> Vec<(i64, i64)> {
    let mut v: Vec<(i64, i64)> = t
        .chunks
        .iter()
        .map(|c| (c.planet_pos.x, c.planet_pos.y))
        .collect();
    v.sort();
    v
}

fn neighborhood(xs: [i64; 3], ys: [i64; 3]) -> Vec<(i64, i64)> {
    let mut v = Vec::new();
    for x in xs {
        for y in ys {
            v.push((x, y));
        }
    }
    v.sort();
    v
}

#[test]
fn spawn_covers_origin_neighborhood() {
    // seed 33, 900x900 tiles, chunks of 100: the pool starts as the 3x3
    // neighborhood of grid (0, 0), i.e. tile columns/rows {800, 0, 100}.
    let t = spawn_tilemap(level(), tileset()).unwrap();
    assert_eq!(t.last_center.x, 0);
    assert_eq!(t.last_center.y, 0);
    assert_eq!(sorted_coords(&t), neighborhood([0, 100, 800], [0, 100, 800]));
    for c in &t.chunks {
        assert_eq!(c.tiles.len(), 100 * 100);
    }
}

#[test]
fn spawn_offsets_are_neighbor_cells() {
    // Each slot sits one chunk-pixel step (3200 px) from the center in
    // each axis direction, the 800 column/row appearing at -3200.
    let t = spawn_tilemap(level(), tileset()).unwrap();
    for c in &t.chunks {
        let expect = |v: i64| match v {
            0 => 0i64,
            100 => 3200,
            800 => -3200,
            _ => panic!("unexpected coordinate"),
        };
        assert_eq!(c.offset_x, expect(c.planet_pos.x));
        assert_eq!(c.offset_y, expect(c.planet_pos.y));
    }
}

#[test]
fn origin_snaps_to_nearest_chunk() {
    let t = spawn_tilemap(level(), tileset()).unwrap();
    assert_eq!(t.update_tilemap_origin(3300, 0), (3200, 0));
    assert_eq!(t.update_tilemap_origin(1599, -1599), (0, 0));
    // Ties round away from zero.
    assert_eq!(t.update_tilemap_origin(1600, -1600), (3200, -3200));
    assert_eq!(t.update_tilemap_origin(-3300, 6500), (-3200, 6400));
}

#[test]
fn recycle_without_center_change_is_noop() {
    let mut t = spawn_tilemap(level(), tileset()).unwrap();
    let before = sorted_coords(&t);
    let before_buf: Vec<Vec<Option<u16>>> =
        t.chunks.iter().map(|c| c.tiles.clone()).collect();
    t.recycle_chunks(0, 0);
    assert_eq!(sorted_coords(&t), before);
    for (c, b) in t.chunks.iter().zip(before_buf.iter()) {
        assert_eq!(&c.tiles, b);
    }
}

#[test]
fn recycle_east_move_reassigns_west_column() {
    // The player walks to pixel (3300, 0): the origin snaps to 3200, the
    // center becomes grid (1, 0).  Exactly the three chunks of the west
    // column (tile column 800) are reassigned to tile column 200 and
    // rebuilt; the other six keep coordinates and buffers untouched.
    let mut t = spawn_tilemap(level(), tileset()).unwrap();
    let before: Vec<((i64, i64), Vec<Option<u16>>)> = t
        .chunks
        .iter()
        .map(|c| ((c.planet_pos.x, c.planet_pos.y), c.tiles.clone()))
        .collect();

    let origin = t.update_tilemap_origin(3300, 0);
    assert_eq!(origin, (3200, 0));
    t.recycle_chunks(origin.0, origin.1);

    assert_eq!(t.last_center.x, 1);
    assert_eq!(t.last_center.y, 0);
    assert_eq!(sorted_coords(&t), neighborhood([0, 100, 200], [0, 100, 800]));

    let mut reassigned = 0;
    for (i, c) in t.chunks.iter().enumerate() {
        let (old_coord, old_buf) = &before[i];
        if *old_coord == (c.planet_pos.x, c.planet_pos.y) {
            assert_eq!(&c.tiles, old_buf);
        } else {
            reassigned += 1;
            assert_eq!(old_coord.0, 800);
            assert_eq!(c.planet_pos.x, 200);
            assert_eq!(old_coord.1, c.planet_pos.y);
            assert_ne!(&c.tiles, old_buf);
        }
    }
    assert_eq!(reassigned, 3);
}

#[test]
fn recycle_preserves_invariant_over_a_walk() {
    // After any sequence of moves, the held coordinates are exactly the
    // wrapped 3x3 neighborhood of the current center, with no duplicates.
    let mut t = spawn_tilemap(level(), tileset()).unwrap();
    let steps: [(i64, i64); 7] = [
        (3200, 0),
        (6400, 0),
        (6400, 3200),
        (6400, -3200),
        (-3200, -3200),
        (28800, 0),
        (0, 0),
    ];
    for (ox, oy) in steps {
        t.recycle_chunks(ox, oy);
        let cx = ox / 3200;
        let cy = oy / 3200;
        let gx = cx.rem_euclid(9);
        let gy = cy.rem_euclid(9);
        assert_eq!(t.last_center.x, gx);
        assert_eq!(t.last_center.y, gy);
        let xs = [
            (gx - 1).rem_euclid(9) * 100,
            gx * 100,
            (gx + 1).rem_euclid(9) * 100,
        ];
        let ys = [
            (gy - 1).rem_euclid(9) * 100,
            gy * 100,
            (gy + 1).rem_euclid(9) * 100,
        ];
        assert_eq!(sorted_coords(&t), neighborhood(xs, ys));
        let coords = sorted_coords(&t);
        for w in coords.windows(2) {
            assert_ne!(w[0], w[1]);
        }
    }
}

#[test]
fn recycle_across_the_seam_moves_one_column() {
    // Stepping west from the origin wraps the center to grid column 8;
    // the east column (tile 100) leaves and tile column 700 enters.
    let mut t = spawn_tilemap(level(), tileset()).unwrap();
    t.recycle_chunks(-3200, 0);
    assert_eq!(t.last_center.x, 8);
    assert_eq!(t.last_center.y, 0);
    assert_eq!(sorted_coords(&t), neighborhood([0, 700, 800], [0, 100, 800]));
}
