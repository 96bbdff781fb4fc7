//! World recentering: keeping absolute pixel coordinates bounded.
//!
//! When the player drifts more than half a world width from the origin,
//! every tracked transform -- player, camera, tilemap origin and all world
//! entities -- is shifted by the same whole multiple of the world pixel
//! size, in one atomic update.  Relative positions are untouched, so the
//! shift is invisible, while absolute magnitudes stay within half a world
//! of zero.

use vstd::prelude::*;
use crate::planet::{round_div, round_div_spec, lemma_round_div_close, COORD_LIMIT, EXTENT_LIMIT};

verus! {

/// A tracked entity's world position, in pixels.
#[derive(Clone, Copy, Debug, PartialEq, Eq, Structural)]
pub struct PixelPosition {
    pub x: i64,
    pub y: i64,
}

/// The transforms the recenterer moves together: the player, the camera,
/// the tilemap origin, and every other world entity.
#[derive(Clone, Debug)]
pub struct WorldTransforms {
    pub player: PixelPosition,
    pub camera: PixelPosition,
    pub tilemap: PixelPosition,
    pub entities: Vec<PixelPosition>,
}

impl WorldTransforms {
    /// Every tracked coordinate is within the range the recenter
    /// arithmetic accepts.
    pub open spec fn bounded(self) -> bool {
        &&& -COORD_LIMIT <= self.player.x <= COORD_LIMIT
        &&& -COORD_LIMIT <= self.player.y <= COORD_LIMIT
        &&& -COORD_LIMIT <= self.camera.x <= COORD_LIMIT
        &&& -COORD_LIMIT <= self.camera.y <= COORD_LIMIT
        &&& -COORD_LIMIT <= self.tilemap.x <= COORD_LIMIT
        &&& -COORD_LIMIT <= self.tilemap.y <= COORD_LIMIT
        &&& forall|i: int|
            0 <= i < self.entities@.len() ==> -COORD_LIMIT
                <= (#[trigger] self.entities@[i]).x <= COORD_LIMIT && -COORD_LIMIT
                <= self.entities@[i].y <= COORD_LIMIT
    }
}

/// `after` is `before` with every tracked transform shifted by exactly
/// `(-ox, -oy)`.
pub open spec fn shifted_by(before: WorldTransforms, after: WorldTransforms, ox: int, oy: int)
    -> bool {
    &&& after.player.x == before.player.x - ox
    &&& after.player.y == before.player.y - oy
    &&& after.camera.x == before.camera.x - ox
    &&& after.camera.y == before.camera.y - oy
    &&& after.tilemap.x == before.tilemap.x - ox
    &&& after.tilemap.y == before.tilemap.y - oy
    &&& after.entities@.len() == before.entities@.len()
    &&& forall|i: int|
        0 <= i < before.entities@.len() ==> (#[trigger] after.entities@[i]).x
            == before.entities@[i].x - ox && after.entities@[i].y == before.entities@[i].y - oy
}

/// The player has drifted at least half a world width from the origin on
/// some axis.
pub open spec fn needs_recenter(player: PixelPosition, world_px: int) -> bool {
    2 * abs_spec(player.x as int) >= world_px || 2 * abs_spec(player.y as int) >= world_px
}

pub open spec fn abs_spec(v: int) -> int {
    if v >= 0 {
        v
    } else {
        -v
    }
}

/// The offset a recenter subtracts on one axis: the multiple of the world
/// pixel size nearest to the player's coordinate.
pub open spec fn recenter_offset_spec(v: int, world_px: int) -> int {
    round_div_spec(v, world_px) * world_px
}

/// One recenter step.  Within half a world width of the origin on both
/// axes this is a no-op.  Otherwise the player, camera, tilemap origin and
/// every world entity shift by the identical offset pair, atomically, and
/// the player ends within half a world width of the origin on both axes.
#[verifier::loop_isolation(false)]
pub fn recenter_world(world: &mut WorldTransforms, world_px: i64)
    requires
        1 <= world_px <= EXTENT_LIMIT,
        old(world).bounded(),
    ensures
        !needs_recenter(old(world).player, world_px as int) ==> *final(world) == *old(world),
        needs_recenter(old(world).player, world_px as int) ==> shifted_by(
            *old(world),
            *final(world),
            recenter_offset_spec(old(world).player.x as int, world_px as int),
            recenter_offset_spec(old(world).player.y as int, world_px as int),
        ),
        needs_recenter(old(world).player, world_px as int) ==> -world_px <= 2
            * final(world).player.x <= world_px && -world_px <= 2 * final(world).player.y
            <= world_px,
{
    let px: i64 = world.player.x;
    let py: i64 = world.player.y;
    let ax: i64 = if px >= 0 {
        px
    } else {
        -px
    };
    let ay: i64 = if py >= 0 {
        py
    } else {
        -py
    };
    if 2 * ax < world_px && 2 * ay < world_px {
        return ;
    }

    let qx: i64 = round_div(px, world_px);
    let qy: i64 = round_div(py, world_px);
    proof {
        lemma_round_div_close(px as int, world_px as int);
        lemma_round_div_close(py as int, world_px as int);
    }
    let ox: i64 = qx * world_px;
    let oy: i64 = qy * world_px;

    world.player.x = world.player.x - ox;
    world.player.y = world.player.y - oy;
    world.camera.x = world.camera.x - ox;
    world.camera.y = world.camera.y - oy;
    world.tilemap.x = world.tilemap.x - ox;
    world.tilemap.y = world.tilemap.y - oy;

    let n: usize = world.entities.len();
    let mut i: usize = 0;
    while i < n
        invariant
            0 <= i <= n,
            world.entities@.len() == n,
            world.player.x == old(world).player.x - ox,
            world.player.y == old(world).player.y - oy,
            world.camera.x == old(world).camera.x - ox,
            world.camera.y == old(world).camera.y - oy,
            world.tilemap.x == old(world).tilemap.x - ox,
            world.tilemap.y == old(world).tilemap.y - oy,
            forall|j: int|
                0 <= j < i ==> (#[trigger] world.entities@[j]).x == old(world).entities@[j].x
                    - ox && world.entities@[j].y == old(world).entities@[j].y - oy,
            forall|j: int| i <= j < n ==> world.entities@[j] == old(world).entities@[j],
        decreases n - i,
    {
        let ex: i64 = world.entities[i].x;
        let ey: i64 = world.entities[i].y;
        world.entities[i].x = ex - ox;
        world.entities[i].y = ey - oy;
        i = i + 1;
    }
}

/// Law: a recenter shift is invisible.  When two world states differ by a
/// uniform shift, the position of the player relative to the camera, to
/// the tilemap origin and to every world entity is identical in both, as
/// is the relative position of any two world entities.
pub proof fn lemma_recenter_preserves_relative(
    before: WorldTransforms,
    after: WorldTransforms,
    ox: int,
    oy: int,
)
    requires
        shifted_by(before, after, ox, oy),
    ensures
        after.player.x - after.camera.x == before.player.x - before.camera.x,
        after.player.y - after.camera.y == before.player.y - before.camera.y,
        after.player.x - after.tilemap.x == before.player.x - before.tilemap.x,
        after.player.y - after.tilemap.y == before.player.y - before.tilemap.y,
        forall|i: int|
            0 <= i < before.entities@.len() ==> after.player.x - (
            #[trigger] after.entities@[i]).x == before.player.x - before.entities@[i].x
                && after.player.y - after.entities@[i].y == before.player.y
                - before.entities@[i].y,
        forall|i: int, j: int|
            0 <= i < before.entities@.len() && 0 <= j < before.entities@.len() ==> (
            #[trigger] after.entities@[i]).x - (#[trigger] after.entities@[j]).x
                == before.entities@[i].x - before.entities@[j].x && after.entities@[i].y
                - after.entities@[j].y == before.entities@[i].y - before.entities@[j].y,
{
}

} // verus!
