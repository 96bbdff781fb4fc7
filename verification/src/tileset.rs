//! The tileset catalog: which atlas tiles render each ground type.
//!
//! Static configuration maps a ground type to a rectangular region of tile
//! indices in the texture atlas, with an optional extra region for a rock
//! decoration.  `get_tile` resolves one planet position to one flat atlas
//! index, or to `None` when the catalog has no entry for the ground type
//! found there (the caller renders nothing for that cell).

use vstd::prelude::*;
use crate::generator::TilemapGenerator;
use crate::planet::PlanetPosition;

verus! {

/// A terrain ground type, decided per tile by the generator.
#[derive(Clone, Copy, Debug, PartialEq, Eq, Structural)]
pub enum Ground {
    DirtRed,
    DirtBrown,
}

/// A secondary decoration scattered over a ground type.
#[derive(Clone, Copy, Debug, PartialEq, Eq, Structural)]
pub enum GroundVariant {
    Rocks,
}

/// A 2D tile index within the texture atlas.
#[derive(Clone, Copy, Debug, PartialEq, Eq, Structural)]
pub struct U16Vec2 {
    pub x: u16,
    pub y: u16,
}

/// An inclusive rectangular range `[from, to]` of atlas tile indices.
#[derive(Clone, Copy, Debug, PartialEq, Eq, Structural)]
pub struct Tileset {
    pub from: U16Vec2,
    pub to: U16Vec2,
}

/// The catalog entry for one ground type: its base region and, when the
/// rocks decoration has its own art, the region for `GroundVariant::Rocks`.
#[derive(Clone, Copy, Debug, PartialEq, Eq, Structural)]
pub struct GroundTilesetWithVariant {
    pub tiles: Tileset,
    pub variants: Option<Tileset>,
}

/// The tileset configuration: atlas geometry plus one optional catalog
/// entry per ground type.
#[derive(Clone, Copy, Debug, PartialEq, Eq, Structural)]
pub struct TilesetAssets {
    /// Pixel edge length of one tile.
    pub tile_size: u32,
    /// Tiles per chunk edge.
    pub chunk_size: u32,
    /// Pixel width of the atlas texture.
    pub width: u32,
    /// Catalog entry for `Ground::DirtRed`.
    pub dirt_red: Option<GroundTilesetWithVariant>,
    /// Catalog entry for `Ground::DirtBrown`.
    pub dirt_brown: Option<GroundTilesetWithVariant>,
}

impl TilesetAssets {
    /// Tiles per atlas row.
    pub open spec fn atlas_row_spec(self) -> int {
        self.width as int / self.tile_size as int
    }

    /// The catalog entry for a ground type.
    pub open spec fn ground_entry_spec(self, ground: Ground) -> Option<GroundTilesetWithVariant> {
        match ground {
            Ground::DirtRed => self.dirt_red,
            Ground::DirtBrown => self.dirt_brown,
        }
    }

    /// A region is inside the atlas row and its largest flat index fits a
    /// tile index.
    pub open spec fn region_wf(self, t: Tileset) -> bool {
        &&& t.from.x <= t.to.x
        &&& t.from.y <= t.to.y
        &&& (t.to.x as int) < self.atlas_row_spec()
        &&& t.to.y as int * self.atlas_row_spec() + t.to.x as int <= u16::MAX as int
    }

    pub open spec fn entry_wf(self, e: GroundTilesetWithVariant) -> bool {
        &&& self.region_wf(e.tiles)
        &&& match e.variants {
            Some(t) => self.region_wf(t),
            None => true,
        }
    }

    /// The catalog is well formed: positive tile and chunk sizes, a chunk
    /// small enough to address its buffer, at least one tile per atlas row,
    /// and every present region valid.
    pub open spec fn wf(self) -> bool {
        &&& 1 <= self.tile_size
        &&& 1 <= self.chunk_size <= 0xFFFF
        &&& self.tile_size <= self.width
        &&& self.atlas_row_spec() <= u16::MAX
        &&& match self.dirt_red {
            Some(e) => self.entry_wf(e),
            None => true,
        }
        &&& match self.dirt_brown {
            Some(e) => self.entry_wf(e),
            None => true,
        }
    }

    fn check_region(&self, t: &Tileset, row: u16) -> (b: bool)
        requires
            self.atlas_row_spec() == row,
        ensures
            b == self.region_wf(*t),
    {
        proof {
            assert(t.to.y as int * row as int + t.to.x as int <= u64::MAX) by (nonlinear_arith)
                requires
                    t.to.y <= u16::MAX,
                    row <= u16::MAX,
                    t.to.x <= u16::MAX,
            ;
        }
        t.from.x <= t.to.x && t.from.y <= t.to.y && (t.to.x as u32) < (row as u32) && t.to.y
            as u64 * row as u64 + t.to.x as u64 <= u16::MAX as u64
    }

    fn check_entry(&self, e: &GroundTilesetWithVariant, row: u16) -> (b: bool)
        requires
            self.atlas_row_spec() == row,
        ensures
            b == self.entry_wf(*e),
    {
        if !self.check_region(&e.tiles, row) {
            return false;
        }
        match &e.variants {
            Some(t) => self.check_region(t, row),
            None => true,
        }
    }

    /// Load-time validation of the catalog.
    pub fn check_wf(&self) -> (b: bool)
        ensures
            b == self.wf(),
    {
        if self.tile_size < 1 || self.chunk_size < 1 || self.chunk_size > 0xFFFF
            || self.tile_size > self.width {
            return false;
        }
        let row_wide: u32 = self.width / self.tile_size;
        if row_wide > u16::MAX as u32 {
            return false;
        }
        let row: u16 = row_wide as u16;
        let red_ok: bool = match &self.dirt_red {
            Some(e) => self.check_entry(e, row),
            None => true,
        };
        if !red_ok {
            return false;
        }
        match &self.dirt_brown {
            Some(e) => self.check_entry(e, row),
            None => true,
        }
    }

    /// The catalog entry for a ground type.
    pub fn ground_entry(&self, ground: Ground) -> (r: &Option<GroundTilesetWithVariant>)
        ensures
            *r == self.ground_entry_spec(ground),
    {
        match ground {
            Ground::DirtRed => &self.dirt_red,
            Ground::DirtBrown => &self.dirt_brown,
        }
    }

    /// The flat atlas index rendered at `pos`, or `None` when the catalog
    /// has no entry for the ground type there.
    pub open spec fn get_tile_spec(self, ctx: TilemapGenerator, pos: PlanetPosition) -> Option<
        u16,
    > {
        let ground = ctx.ground_type_spec(pos);
        match self.ground_entry_spec(ground) {
            None => None,
            Some(g) => {
                let tiles = if ctx.has_variant_spec(pos) {
                    match g.variants {
                        Some(t) => t,
                        None => g.tiles,
                    }
                } else {
                    g.tiles
                };
                let tile = ctx.tile_variant_spec(pos, tiles.from, tiles.to);
                Some((tile.x + tile.y * self.atlas_row_spec()) as u16)
            },
        }
    }

    /// Resolves one planet position to a flat atlas tile index: ground type
    /// and decoration from the generator pick the region, the tile pick
    /// selects within it, and the 2D index is flattened by the atlas row
    /// width.  `None` exactly when the ground type has no catalog entry.
    pub fn get_tile(&self, ctx: &TilemapGenerator, pos: PlanetPosition) -> (r: Option<u16>)
        requires
            self.wf(),
            ctx.wf(),
            i64::MIN < pos.x,
            i64::MIN < pos.y,
        ensures
            r == self.get_tile_spec(*ctx, pos),
            r is Some <==> self.ground_entry_spec(ctx.ground_type_spec(pos)) is Some,
    {
        let ground = ctx.ground_type(pos);
        let has_rocks = ctx.has_variant(pos);

        match self.ground_entry(ground) {
            None => None,
            Some(g) => {
                let tiles: &Tileset = if has_rocks {
                    match &g.variants {
                        Some(t) => t,
                        None => &g.tiles,
                    }
                } else {
                    &g.tiles
                };
                let tile = ctx.tile_variant(pos, tiles.from, tiles.to);
                let row: u16 = (self.width / self.tile_size) as u16;
                proof {
                    assert(tile.y as int * self.atlas_row_spec() <= tiles.to.y as int
                        * self.atlas_row_spec()) by (nonlinear_arith)
                        requires
                            tile.y <= tiles.to.y,
                            self.atlas_row_spec() >= 0,
                    ;
                }
                Some(tile.x + tile.y * row)
            },
        }
    }
}

} // verus!
