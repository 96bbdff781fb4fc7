use planet_tilemap::texture::{convert_tileset_to_array, repack_tiles, TilesetImage};

#[test]
fn repacks_two_tiles_exactly() {
    // A 4x2 atlas with 2x2 tiles: two tiles side by side.  Bytes are
    // sequential, so every relocation is visible.
    let data: Vec<u8> = (0..32).collect();
    let out = repack_tiles(&data, 4, 2, 2);
    let expected: Vec<u8> = vec![
        0, 1, 2, 3, 4, 5, 6, 7, 16, 17, 18, 19, 20, 21, 22, 23, // tile 0
        8, 9, 10, 11, 12, 13, 14, 15, 24, 25, 26, 27, 28, 29, 30, 31, // tile 1
    ];
    assert_eq!(out, expected);
}

#[test]
fn drops_partial_edge_tiles() {
    // A 5x3 atlas with 2x2 tiles keeps only the 2x1 grid of whole tiles.
    let data: Vec<u8> = (0..60).collect();
    let out = repack_tiles(&data, 5, 3, 2);
    assert_eq!(out.len(), 2 * 1 * 2 * 2 * 4);
    // Tile 0, pixel (0, 0) is atlas pixel (0, 0).
    assert_eq!(&out[0..4], &data[0..4]);
    // Tile 1, pixel (0, 0) is atlas pixel (2, 0): byte offset (0*5+2)*4.
    assert_eq!(&out[16..20], &data[8..12]);
    // Tile 1, pixel (1, 1) is atlas pixel (3, 1): byte offset (1*5+3)*4.
    assert_eq!(&out[28..32], &data[32..36]);
}

#[test]
fn single_tile_atlas_is_identity() {
    let data: Vec<u8> = (0..16).collect();
    let out = repack_tiles(&data, 2, 2, 2);
    assert_eq!(out, data);
}

#[test]
fn atlas_smaller_than_tile_yields_empty() {
    let data: Vec<u8> = (0..12).collect();
    let out = repack_tiles(&data, 3, 1, 2);
    assert!(out.is_empty());
}

#[test]
fn conversion_is_deterministic() {
    let data: Vec<u8> = (0u8..=255).cycle().take(8 * 8 * 4).collect();
    let a = repack_tiles(&data, 8, 8, 4);
    let b = repack_tiles(&data, 8, 8, 4);
    assert_eq!(a, b);
    assert_eq!(a.len(), 8 * 8 * 4);
}

#[test]
fn convert_replaces_flat_image() {
    let mut img = TilesetImage {
        width: 4,
        height: 2,
        layers: 1,
        data: (0..32).collect(),
    };
    convert_tileset_to_array(&mut img, 2);
    assert_eq!(img.width, 2);
    assert_eq!(img.height, 2);
    assert_eq!(img.layers, 2);
    assert_eq!(img.data, repack_tiles(&(0..32).collect(), 4, 2, 2));
}

#[test]
fn convert_skips_already_converted_image() {
    // More than one layer means a previous conversion: nothing changes.
    let mut img = TilesetImage {
        width: 2,
        height: 2,
        layers: 2,
        data: (0..32).collect(),
    };
    let before = img.data.clone();
    convert_tileset_to_array(&mut img, 2);
    assert_eq!(img.width, 2);
    assert_eq!(img.height, 2);
    assert_eq!(img.layers, 2);
    assert_eq!(img.data, before);
}

#[test]
fn convert_twice_is_stable() {
    let mut img = TilesetImage {
        width: 4,
        height: 4,
        layers: 1,
        data: (0u8..64).collect(),
    };
    convert_tileset_to_array(&mut img, 2);
    let once = img.data.clone();
    let layers = img.layers;
    convert_tileset_to_array(&mut img, 2);
    assert_eq!(img.data, once);
    assert_eq!(img.layers, layers);
}
