//! Draw-order layers for the game's world entities.

use vstd::prelude::*;

verus! {

/// The broad layer an entity is drawn and collided on.  Ground sits below
/// everything; the player is drawn above enemies.
#[derive(Clone, Copy, Debug, PartialEq, Eq, Structural)]
pub enum GameLayer {
    Ground,
    Enemy,
    Player,
}

impl GameLayer {
    pub open spec fn z_base_spec(self) -> int {
        match self {
            GameLayer::Ground => -1,
            GameLayer::Enemy => 10,
            GameLayer::Player => 20,
        }
    }

    /// The base depth of the layer: strictly increasing from ground to
    /// enemies to the player.
    pub fn z_base(&self) -> (z: i32)
        ensures
            z == self.z_base_spec(),
            GameLayer::Ground.z_base_spec() < GameLayer::Enemy.z_base_spec()
                < GameLayer::Player.z_base_spec(),
    {
        match self {
            GameLayer::Ground => -1,
            GameLayer::Enemy => 10,
            GameLayer::Player => 20,
        }
    }
}

} // verus!
