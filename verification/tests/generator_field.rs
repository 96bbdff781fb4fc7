use planet_tilemap::generator::TilemapGenerator;
use planet_tilemap::planet::PlanetPosition;
use planet_tilemap::tileset::{Ground, U16Vec2};

fn pos(x: i64, y: i64) -> PlanetPosition {
    PlanetPosition { x, y }
}

#[test]
fn ground_type_concrete_values() {
    let g = TilemapGenerator::new(7, 900, 900);
    assert_eq!(g.ground_type(pos(0, 0)), Ground::DirtBrown);
    assert_eq!(g.ground_type(pos(5, 6)), Ground::DirtBrown);
    assert_eq!(g.ground_type(pos(7, 7)), Ground::DirtRed);
    assert_eq!(g.ground_type(pos(1, 2)), Ground::DirtRed);
}

#[test]
fn has_variant_concrete_values() {
    let g = TilemapGenerator::new(7, 900, 900);
    assert!(!g.has_variant(pos(5, 6)));
    assert!(g.has_variant(pos(7, 7)));
}

#[test]
fn has_variant_is_pure() {
    // The same position and seed give the same answer on every call.
    let g = TilemapGenerator::new(33, 900, 900);
    for x in 0..40i64 {
        for y in 0..10i64 {
            let first = g.has_variant(pos(x, y));
            let second = g.has_variant(pos(x, y));
            assert_eq!(first, second);
        }
    }
    let h = TilemapGenerator::new(33, 900, 900);
    assert_eq!(g.has_variant(pos(17, 23)), h.has_variant(pos(17, 23)));
}

#[test]
fn seam_continuity_x_axis() {
    // Column x == 0 equals column x == planet_width, for several seeds
    // and planet sizes.
    for seed in [0u32, 1, 33, 0xFFFF_FFFF] {
        for (w, h) in [(900u32, 900u32), (300, 600), (3, 3)] {
            let g = TilemapGenerator::new(seed, w, h);
            for y in 0..h as i64 {
                assert_eq!(g.ground_type(pos(0, y)), g.ground_type(pos(w as i64, y)));
                assert_eq!(g.has_variant(pos(0, y)), g.has_variant(pos(w as i64, y)));
            }
        }
    }
}

#[test]
fn seam_continuity_y_axis() {
    for seed in [0u32, 1, 33] {
        for (w, h) in [(900u32, 900u32), (300, 600)] {
            let g = TilemapGenerator::new(seed, w, h);
            for x in 0..w as i64 {
                assert_eq!(g.ground_type(pos(x, 0)), g.ground_type(pos(x, h as i64)));
                assert_eq!(g.has_variant(pos(x, 0)), g.has_variant(pos(x, h as i64)));
            }
        }
    }
}

#[test]
fn tile_variant_concrete_value() {
    let g = TilemapGenerator::new(7, 900, 900);
    let from = U16Vec2 { x: 2, y: 3 };
    let to = U16Vec2 { x: 5, y: 9 };
    let t = g.tile_variant(pos(5, 6), from, to);
    assert_eq!(t, U16Vec2 { x: 2, y: 6 });
}

#[test]
fn tile_variant_stays_in_range() {
    let g = TilemapGenerator::new(99, 300, 300);
    let from = U16Vec2 { x: 4, y: 0 };
    let to = U16Vec2 { x: 5, y: 1 };
    for x in 0..50i64 {
        for y in 0..10i64 {
            let t = g.tile_variant(pos(x, y), from, to);
            assert!(from.x <= t.x && t.x <= to.x);
            assert!(from.y <= t.y && t.y <= to.y);
        }
    }
}

#[test]
fn tile_variant_wraps_position() {
    // A negative position samples the same tile as its wrapped value.
    let g = TilemapGenerator::new(7, 900, 900);
    let from = U16Vec2 { x: 2, y: 3 };
    let to = U16Vec2 { x: 5, y: 9 };
    let a = g.tile_variant(pos(-1, -1), from, to);
    let b = g.tile_variant(pos(899, 899), from, to);
    assert_eq!(a, b);
    assert_eq!(a, U16Vec2 { x: 4, y: 7 });
}

#[test]
fn single_tile_range_is_fixed_point() {
    let g = TilemapGenerator::new(5, 100, 100);
    let only = U16Vec2 { x: 7, y: 9 };
    let t = g.tile_variant(pos(42, 17), only, only);
    assert_eq!(t, only);
}
