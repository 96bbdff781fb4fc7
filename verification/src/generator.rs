//! Deterministic per-tile terrain decisions.
//!
//! Every decision is a pure function of the seed and the normalized planet
//! position, derived from an integer avalanche hash with golden-ratio style
//! multiplicative constants.  Positions are reduced onto the planet before
//! hashing, so the field is periodic: the wrap seam at coordinate 0 /
//! extent is invisible, and regenerating a chunk always reproduces it.

use vstd::prelude::*;
use crate::planet::{PlanetPosition, lemma_normalize_period};
use crate::tileset::{Ground, U16Vec2};

verus! {

/// Stream salt decorrelating the ground-type field from the tile pick.
pub const GROUND_STREAM: u32 = 0x51ED_270B;

/// Stream salt decorrelating the decoration field from the other two.
pub const VARIANT_STREAM: u32 = 0xACF3_4D55;

/// Ground-type split point: half of the hash range, so the two ground
/// types each cover about half of the planet.
pub const GROUND_THRESHOLD: u32 = 0x8000_0000;

/// Decoration threshold: hashes at or above it mark about 30% of tiles.
pub const VARIANT_THRESHOLD: u32 = 0xB333_3334;

/// Multiply-xor-shift avalanche hash of `(seed, x, y)`.
pub open spec fn hash_spec(seed: u32, x: u32, y: u32) -> u32 {
    let a = seed.wrapping_mul(0x9E37_79B9).wrapping_add(x);
    let b = a ^ (a >> 16);
    let c = b.wrapping_mul(0x85EB_CA6B).wrapping_add(y);
    let d = c ^ (c >> 13);
    let e = d.wrapping_mul(0xC2B2_AE35);
    e ^ (e >> 16)
}

fn hash(seed: u32, x: u32, y: u32) -> (h: u32)
    ensures
        h == hash_spec(seed, x, y),
{
    let a: u32 = seed.wrapping_mul(0x9E37_79B9).wrapping_add(x);
    let b: u32 = a ^ (a >> 16);
    let c: u32 = b.wrapping_mul(0x85EB_CA6B).wrapping_add(y);
    let d: u32 = c ^ (c >> 13);
    let e: u32 = d.wrapping_mul(0xC2B2_AE35);
    e ^ (e >> 16)
}

/// The per-tile decision source for one planet: a seed plus the planet
/// extents that positions are reduced onto.
#[derive(Clone, Copy, Debug, PartialEq, Eq, Structural)]
pub struct TilemapGenerator {
    pub seed: u32,
    pub planet_width: u32,
    pub planet_height: u32,
}

impl TilemapGenerator {
    pub open spec fn wf(self) -> bool {
        &&& self.planet_width >= 1
        &&& self.planet_height >= 1
    }

    pub fn new(seed: u32, planet_width: u32, planet_height: u32) -> (r: TilemapGenerator)
        requires
            planet_width >= 1,
            planet_height >= 1,
        ensures
            r == (TilemapGenerator { seed, planet_width, planet_height }),
            r.wf(),
    {
        TilemapGenerator { seed, planet_width, planet_height }
    }

    /// The position reduced onto this generator's planet.
    pub open spec fn normalized_spec(self, pos: PlanetPosition) -> PlanetPosition {
        pos.normalize_spec(self.planet_width as int, self.planet_height as int)
    }

    pub open spec fn ground_type_spec(self, pos: PlanetPosition) -> Ground {
        let n = self.normalized_spec(pos);
        if hash_spec(self.seed ^ GROUND_STREAM, n.x as u32, n.y as u32) >= GROUND_THRESHOLD {
            Ground::DirtRed
        } else {
            Ground::DirtBrown
        }
    }

    /// The ground type at `pos`: a threshold split of the seeded ground
    /// field, periodic over the planet.
    pub fn ground_type(&self, pos: PlanetPosition) -> (g: Ground)
        requires
            self.wf(),
            i64::MIN < pos.x,
            i64::MIN < pos.y,
        ensures
            g == self.ground_type_spec(pos),
    {
        let n = pos.normalize(self.planet_width, self.planet_height);
        if hash(self.seed ^ GROUND_STREAM, n.x as u32, n.y as u32) >= GROUND_THRESHOLD {
            Ground::DirtRed
        } else {
            Ground::DirtBrown
        }
    }

    pub open spec fn has_variant_spec(self, pos: PlanetPosition) -> bool {
        let n = self.normalized_spec(pos);
        hash_spec(self.seed ^ VARIANT_STREAM, n.x as u32, n.y as u32) >= VARIANT_THRESHOLD
    }

    /// Whether the rock decoration lands on `pos`: true for about 30% of
    /// tiles, from a field decorrelated from the ground type.
    pub fn has_variant(&self, pos: PlanetPosition) -> (b: bool)
        requires
            self.wf(),
            i64::MIN < pos.x,
            i64::MIN < pos.y,
        ensures
            b == self.has_variant_spec(pos),
    {
        let n = pos.normalize(self.planet_width, self.planet_height);
        hash(self.seed ^ VARIANT_STREAM, n.x as u32, n.y as u32) >= VARIANT_THRESHOLD
    }

    pub open spec fn tile_variant_spec(self, pos: PlanetPosition, from: U16Vec2, to: U16Vec2)
        -> U16Vec2
        recommends
            from.x <= to.x,
            from.y <= to.y,
    {
        let n = self.normalized_spec(pos);
        let h = hash_spec(self.seed, n.x as u32, n.y as u32) as int;
        let range_x = to.x - from.x + 1;
        let range_y = to.y - from.y + 1;
        U16Vec2 {
            x: (from.x + h % range_x) as u16,
            y: (from.y + (h / range_x) % range_y) as u16,
        }
    }

    /// Picks one concrete atlas tile inside the inclusive range
    /// `[from, to]`, deterministically from the seed and position.
    pub fn tile_variant(&self, pos: PlanetPosition, from: U16Vec2, to: U16Vec2) -> (r: U16Vec2)
        requires
            self.wf(),
            from.x <= to.x,
            from.y <= to.y,
            i64::MIN < pos.x,
            i64::MIN < pos.y,
        ensures
            r == self.tile_variant_spec(pos, from, to),
            from.x <= r.x <= to.x,
            from.y <= r.y <= to.y,
    {
        let n = pos.normalize(self.planet_width, self.planet_height);
        let h: u32 = hash(self.seed, n.x as u32, n.y as u32);
        let range_x: u32 = (to.x - from.x) as u32 + 1;
        let range_y: u32 = (to.y - from.y) as u32 + 1;
        let x: u16 = from.x + (h % range_x) as u16;
        let y: u16 = from.y + ((h / range_x) % range_y) as u16;
        U16Vec2 { x, y }
    }
}

/// Law: seam continuity.  Every per-tile decision agrees at positions one
/// whole planet extent apart; in particular the column at `x == 0` equals
/// the column at `x == planet_width`, and likewise for rows across the
/// `y` seam.
pub proof fn lemma_seam_continuity(
    g: TilemapGenerator,
    pos: PlanetPosition,
    from: U16Vec2,
    to: U16Vec2,
)
    requires
        g.wf(),
        pos.x + g.planet_width <= i64::MAX,
        pos.y + g.planet_height <= i64::MAX,
    ensures
        g.ground_type_spec(PlanetPosition { x: (pos.x + g.planet_width) as i64, y: pos.y })
            == g.ground_type_spec(pos),
        g.ground_type_spec(PlanetPosition { x: pos.x, y: (pos.y + g.planet_height) as i64 })
            == g.ground_type_spec(pos),
        g.has_variant_spec(PlanetPosition { x: (pos.x + g.planet_width) as i64, y: pos.y })
            == g.has_variant_spec(pos),
        g.has_variant_spec(PlanetPosition { x: pos.x, y: (pos.y + g.planet_height) as i64 })
            == g.has_variant_spec(pos),
        g.tile_variant_spec(
            PlanetPosition { x: (pos.x + g.planet_width) as i64, y: pos.y },
            from,
            to,
        ) == g.tile_variant_spec(pos, from, to),
        g.tile_variant_spec(
            PlanetPosition { x: pos.x, y: (pos.y + g.planet_height) as i64 },
            from,
            to,
        ) == g.tile_variant_spec(pos, from, to),
{
    lemma_normalize_period(pos, g.planet_width as int, g.planet_height as int);
}

} // verus!
