use planet_tilemap::recenter::{recenter_world, PixelPosition, WorldTransforms};

fn px(x: i64, y: i64) -> PixelPosition {
    PixelPosition { x, y }
}

fn world(player: PixelPosition) -> WorldTransforms {
    WorldTransforms {
        player,
        camera: px(10, 20),
        tilemap: px(3200, 0),
        entities: vec![px(1, 2), px(28800, -28800)],
    }
}

const WORLD_PX: i64 = 900 * 32;

#[test]
fn below_threshold_is_noop() {
    let mut w = world(px(14399, -14399));
    let before = w.clone();
    recenter_world(&mut w, WORLD_PX);
    assert_eq!(w.player, before.player);
    assert_eq!(w.camera, before.camera);
    assert_eq!(w.tilemap, before.tilemap);
    assert_eq!(w.entities, before.entities);
}

#[test]
fn recenter_shifts_everything_uniformly() {
    // At half the world width the shift triggers; every tracked transform
    // moves by the same whole world multiple.
    let mut w = world(px(14400, 100));
    recenter_world(&mut w, WORLD_PX);
    assert_eq!(w.player, px(14400 - 28800, 100));
    assert_eq!(w.camera, px(10 - 28800, 20));
    assert_eq!(w.tilemap, px(3200 - 28800, 0));
    assert_eq!(w.entities, vec![px(1 - 28800, 2), px(0, -28800)]);
}

#[test]
fn recenter_preserves_relative_positions() {
    let start = world(px(40000, -100000));
    let mut w = start.clone();
    recenter_world(&mut w, WORLD_PX);
    assert_eq!(
        w.player.x - w.camera.x,
        start.player.x - start.camera.x
    );
    assert_eq!(
        w.player.y - w.camera.y,
        start.player.y - start.camera.y
    );
    assert_eq!(
        w.player.x - w.tilemap.x,
        start.player.x - start.tilemap.x
    );
    for i in 0..w.entities.len() {
        assert_eq!(
            w.player.x - w.entities[i].x,
            start.player.x - start.entities[i].x
        );
        assert_eq!(
            w.player.y - w.entities[i].y,
            start.player.y - start.entities[i].y
        );
    }
    // And the player ends within half a world of the origin.
    assert!(2 * w.player.x.abs() <= WORLD_PX);
    assert!(2 * w.player.y.abs() <= WORLD_PX);
}

#[test]
fn recenter_rounds_away_from_zero() {
    // Exactly on the negative threshold, the offset is the negative
    // world width.
    let mut w = world(px(-14400, 0));
    recenter_world(&mut w, WORLD_PX);
    assert_eq!(w.player, px(14400, 0));
    assert_eq!(w.camera, px(10 + 28800, 20));
}

#[test]
fn repeated_recenters_stay_bounded() {
    let mut w = world(px(1_000_000, -2_345_678));
    recenter_world(&mut w, WORLD_PX);
    assert!(2 * w.player.x.abs() <= WORLD_PX);
    assert!(2 * w.player.y.abs() <= WORLD_PX);
    let before = w.clone();
    // A second pass can shift only if the player still sits exactly on
    // the half-width boundary; it never grows the magnitude.
    recenter_world(&mut w, WORLD_PX);
    assert!(2 * w.player.x.abs() <= WORLD_PX);
    assert_eq!(
        w.player.x - w.camera.x,
        before.player.x - before.camera.x
    );
}
