use planet_tilemap::layer::GameLayer;
use planet_tilemap::level::{validate_config, ConfigError, LevelAssets};
use planet_tilemap::scroll::spawn_tilemap;
use planet_tilemap::tileset::{
    GroundTilesetWithVariant, Tileset, TilesetAssets, U16Vec2,
};

fn region(fx: u16, fy: u16, tx: u16, ty: u16) -> Tileset {
    Tileset { from: U16Vec2 { x: fx, y: fy }, to: U16Vec2 { x: tx, y: ty } }
}

fn tileset() -> TilesetAssets {
    TilesetAssets {
        tile_size: 32,
        chunk_size: 100,
        width: 320,
        dirt_red: Some(GroundTilesetWithVariant {
            tiles: region(0, 0, 1, 1),
            variants: Some(region(4, 0, 5, 1)),
        }),
        dirt_brown: Some(GroundTilesetWithVariant {
            tiles: region(2, 0, 3, 1),
            variants: None,
        }),
    }
}

fn level() -> LevelAssets {
    LevelAssets { seed: 33, planet_width: 900, planet_height: 900 }
}

#[test]
fn valid_config_is_accepted() {
    assert_eq!(validate_config(&level(), &tileset()), Ok(()));
}

#[test]
fn zero_dimension_is_rejected() {
    let mut l = level();
    l.planet_width = 0;
    assert_eq!(validate_config(&l, &tileset()), Err(ConfigError::ZeroDimension));
    let mut t = tileset();
    t.tile_size = 0;
    assert_eq!(validate_config(&level(), &t), Err(ConfigError::ZeroDimension));
    let mut t2 = tileset();
    t2.chunk_size = 0;
    assert_eq!(validate_config(&level(), &t2), Err(ConfigError::ZeroDimension));
}

#[test]
fn inverted_region_is_rejected() {
    let mut t = tileset();
    t.dirt_red = Some(GroundTilesetWithVariant {
        tiles: region(2, 0, 1, 0),
        variants: None,
    });
    assert_eq!(validate_config(&level(), &t), Err(ConfigError::BadTileset));
}

#[test]
fn region_outside_atlas_row_is_rejected() {
    // The atlas is 10 tiles wide; a region reaching column 10 is out.
    let mut t = tileset();
    t.dirt_brown = Some(GroundTilesetWithVariant {
        tiles: region(0, 0, 10, 0),
        variants: None,
    });
    assert_eq!(validate_config(&level(), &t), Err(ConfigError::BadTileset));
}

#[test]
fn oversized_pixel_extent_is_rejected() {
    let mut l = level();
    l.planet_width = 0x4000_0000;
    l.planet_height = 900;
    // 2^30 tiles of 32 pixels overflow 32-bit pixel arithmetic.
    assert_eq!(validate_config(&l, &tileset()), Err(ConfigError::ExtentTooLarge));
}

#[test]
fn non_divisible_planet_is_rejected() {
    let mut l = level();
    l.planet_width = 901;
    assert_eq!(validate_config(&l, &tileset()), Err(ConfigError::NotDivisible));
}

#[test]
fn grid_under_three_is_rejected() {
    let mut l = level();
    l.planet_width = 200;
    l.planet_height = 200;
    assert_eq!(validate_config(&l, &tileset()), Err(ConfigError::GridTooSmall));
}

#[test]
fn spawn_refuses_bad_config() {
    let mut l = level();
    l.planet_height = 901;
    assert!(matches!(
        spawn_tilemap(l, tileset()),
        Err(ConfigError::NotDivisible)
    ));
}

#[test]
fn layers_order_ground_below_player() {
    assert_eq!(GameLayer::Ground.z_base(), -1);
    assert_eq!(GameLayer::Enemy.z_base(), 10);
    assert_eq!(GameLayer::Player.z_base(), 20);
    assert!(GameLayer::Ground.z_base() < GameLayer::Enemy.z_base());
    assert!(GameLayer::Enemy.z_base() < GameLayer::Player.z_base());
}
