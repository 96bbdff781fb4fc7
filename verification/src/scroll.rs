//! The chunk scroller: a fixed pool of nine chunk slots recycled as the
//! player crosses chunk boundaries.
//!
//! The pool always covers the wrapped 3x3 chunk neighborhood of the chunk
//! nearest the player: no two slots cover the same planet region, every
//! neighborhood coordinate is held by some slot, and each slot's buffer is
//! exactly the terrain of its assigned coordinate.  When the center chunk
//! changes, slots whose coordinate left the neighborhood are reassigned to
//! the coordinates that entered it, and only those slots are rebuilt.

use vstd::prelude::*;
use crate::chunk::{chunk_pixel_size, chunk_pixel_size_spec, chunk_tile_data, chunk_tiles_spec};
use crate::level::{config_wf, config_check_spec, validate_config, ConfigError, LevelAssets};
use crate::planet::{
    wrap_coord, round_div, round_div_spec, wrapped_delta, wrapped_delta_spec,
    lemma_round_div_close, PlanetPosition, COORD_LIMIT,
};
use crate::tileset::TilesetAssets;
use vstd::arithmetic::div_mod::{
    lemma_fundamental_div_mod, lemma_fundamental_div_mod_converse_div,
    lemma_mod_division_less_than_divisor, lemma_multiply_divide_lt,
};

verus! {

/// One pooled chunk slot: its currently assigned planet-space origin (in
/// tiles, wrapped onto the planet), its tile buffer, and its render-local
/// pixel offset from the tilemap origin.
#[derive(Clone, Debug)]
pub struct Chunk {
    pub planet_pos: PlanetPosition,
    pub tiles: Vec<Option<u16>>,
    pub offset_x: i64,
    pub offset_y: i64,
}

/// The tilemap root: the level and tileset configuration, the pool of nine
/// chunk slots, and the chunk-grid coordinate of the last known center.
#[derive(Clone, Debug)]
pub struct Tilemap {
    pub level: LevelAssets,
    pub tileset: TilesetAssets,
    pub chunks: Vec<Chunk>,
    pub last_center: PlanetPosition,
}

/// Chunk-grid offset pair of neighborhood cell `k` in `0..9`, each
/// component in `{-1, 0, 1}`; `k` runs column by column.
pub open spec fn neighbor_dx(k: int) -> int {
    k / 3 - 1
}

pub open spec fn neighbor_dy(k: int) -> int {
    k % 3 - 1
}

/// The planet-tile origin of neighborhood cell `k` around `center` (given
/// in chunk-grid units) on a `gw` x `gh` chunk grid with `cs` tiles per
/// chunk edge.
pub open spec fn expected_coord_spec(
    center: PlanetPosition,
    gw: int,
    gh: int,
    cs: int,
    k: int,
) -> PlanetPosition {
    PlanetPosition {
        x: (((center.x + neighbor_dx(k)) % gw) * cs) as i64,
        y: (((center.y + neighbor_dy(k)) % gh) * cs) as i64,
    }
}

/// The nine planet-tile origins the pool must cover around `center`.
pub open spec fn expected_seq_spec(center: PlanetPosition, gw: int, gh: int, cs: int) -> Seq<
    PlanetPosition,
> {
    Seq::new(9, |k: int| expected_coord_spec(center, gw, gh, cs, k))
}

/// Distinct values within distance `m` of each other stay distinct after
/// reduction modulo `m`.
proof fn lemma_mod_distinct(a: int, b: int, m: int)
    requires
        m >= 1,
        a != b,
        -m < a - b < m,
    ensures
        a % m != b % m,
{
    lemma_fundamental_div_mod(a, m);
    lemma_fundamental_div_mod(b, m);
    if a % m == b % m {
        assert(a - b == m * (a / m) - m * (b / m));
        assert(false) by (nonlinear_arith)
            requires
                a - b == m * (a / m) - m * (b / m),
                -m < a - b < m,
                a - b != 0,
                m >= 1,
        ;
    }
}

/// The nine neighborhood coordinates are pairwise distinct whenever the
/// chunk grid is at least 3 wide on each axis.
pub proof fn lemma_expected_distinct(center: PlanetPosition, gw: int, gh: int, cs: int)
    requires
        gw >= 3,
        gh >= 3,
        cs >= 1,
        gw * cs <= i64::MAX,
        gh * cs <= i64::MAX,
    ensures
        expected_seq_spec(center, gw, gh, cs).no_duplicates(),
{
    let e = expected_seq_spec(center, gw, gh, cs);
    assert forall|k1: int, k2: int| 0 <= k1 < 9 && 0 <= k2 < 9 && k1 != k2 implies e[k1]
        != e[k2] by {
        let dx1 = neighbor_dx(k1);
        let dx2 = neighbor_dx(k2);
        let dy1 = neighbor_dy(k1);
        let dy2 = neighbor_dy(k2);
        if dx1 != dx2 {
            lemma_mod_distinct(center.x + dx1, center.x + dx2, gw);
            let w1 = (center.x + dx1) % gw;
            let w2 = (center.x + dx2) % gw;
            lemma_mod_division_less_than_divisor(center.x + dx1, gw);
            lemma_mod_division_less_than_divisor(center.x + dx2, gw);
            assert(w1 * cs != w2 * cs && 0 <= w1 * cs < gw * cs && 0 <= w2 * cs < gw * cs)
                by (nonlinear_arith)
                requires
                    w1 != w2,
                    0 <= w1 < gw,
                    0 <= w2 < gw,
                    cs >= 1,
            ;
        } else {
            assert(dy1 != dy2);
            lemma_mod_distinct(center.y + dy1, center.y + dy2, gh);
            let w1 = (center.y + dy1) % gh;
            let w2 = (center.y + dy2) % gh;
            lemma_mod_division_less_than_divisor(center.y + dy1, gh);
            lemma_mod_division_less_than_divisor(center.y + dy2, gh);
            assert(w1 * cs != w2 * cs && 0 <= w1 * cs < gh * cs && 0 <= w2 * cs < gh * cs)
                by (nonlinear_arith)
                requires
                    w1 != w2,
                    0 <= w1 < gh,
                    0 <= w2 < gh,
                    cs >= 1,
            ;
        }
    }
}

impl Tilemap {
    /// Chunks per planet axis.
    pub open spec fn grid_w_spec(self) -> int {
        self.level.planet_width as int / self.tileset.chunk_size as int
    }

    pub open spec fn grid_h_spec(self) -> int {
        self.level.planet_height as int / self.tileset.chunk_size as int
    }

    pub open spec fn chunk_px_spec(self) -> int {
        chunk_pixel_size_spec(self.tileset)
    }

    /// The slot coordinates, in slot order.
    pub open spec fn coords_seq(self) -> Seq<PlanetPosition> {
        Seq::new(self.chunks@.len() as nat, |j: int| self.chunks@[j].planet_pos)
    }

    /// The neighborhood the pool must currently cover.
    pub open spec fn expected_now(self) -> Seq<PlanetPosition> {
        expected_seq_spec(
            self.last_center,
            self.grid_w_spec(),
            self.grid_h_spec(),
            self.tileset.chunk_size as int,
        )
    }

    /// The slot's render offset demanded by its coordinate: the shortest
    /// path on the wrapping chunk grid from its grid cell to the center,
    /// in pixels.
    pub open spec fn offset_ok(self, c: Chunk) -> bool {
        &&& c.offset_x == wrapped_delta_spec(
            c.planet_pos.x as int / self.tileset.chunk_size as int - self.last_center.x,
            self.grid_w_spec(),
        ) * self.chunk_px_spec()
        &&& c.offset_y == wrapped_delta_spec(
            c.planet_pos.y as int / self.tileset.chunk_size as int - self.last_center.y,
            self.grid_h_spec(),
        ) * self.chunk_px_spec()
    }

    /// The slot's buffer is exactly the terrain of its coordinate.
    pub open spec fn tiles_ok(self, c: Chunk) -> bool {
        c.tiles@ == chunk_tiles_spec(
            self.level.seed,
            self.level.planet_width,
            self.level.planet_height,
            c.planet_pos,
            self.tileset,
        )
    }

    /// The pool invariant: a sound configuration; a wrapped center; and
    /// nine slots whose coordinates are exactly the wrapped 3x3
    /// neighborhood of the center -- each held coordinate expected, no
    /// coordinate held twice, every expected coordinate held -- with every
    /// buffer consistent with its coordinate and every render offset the
    /// shortest-path placement around the center.
    pub open spec fn wf(self) -> bool {
        &&& config_wf(self.level, self.tileset)
        &&& self.chunks@.len() == 9
        &&& 0 <= self.last_center.x < self.grid_w_spec()
        &&& 0 <= self.last_center.y < self.grid_h_spec()
        &&& forall|j: int|
            0 <= j < 9 ==> self.expected_now().contains(#[trigger] self.coords_seq()[j])
        &&& self.coords_seq().no_duplicates()
        &&& forall|k: int|
            0 <= k < 9 ==> self.coords_seq().contains(#[trigger] self.expected_now()[k])
        &&& forall|j: int| 0 <= j < 9 ==> self.tiles_ok(#[trigger] self.chunks@[j])
        &&& forall|j: int| 0 <= j < 9 ==> self.offset_ok(#[trigger] self.chunks@[j])
    }
}

/// Arithmetic consequences of a sound configuration: the chunk grid tiles
/// the planet exactly, and every pixel quantity involved fits in 32 bits.
pub proof fn lemma_config_bounds(level: LevelAssets, tileset: TilesetAssets)
    requires
        config_wf(level, tileset),
    ensures
        3 <= level.planet_width as int / tileset.chunk_size as int,
        3 <= level.planet_height as int / tileset.chunk_size as int,
        (level.planet_width as int / tileset.chunk_size as int) * tileset.chunk_size as int
            == level.planet_width as int,
        (level.planet_height as int / tileset.chunk_size as int) * tileset.chunk_size as int
            == level.planet_height as int,
        level.planet_width as int / tileset.chunk_size as int <= level.planet_width as int,
        level.planet_height as int / tileset.chunk_size as int <= level.planet_height as int,
        tileset.chunk_size <= level.planet_width,
        1 <= chunk_pixel_size_spec(tileset) <= u32::MAX,
        (level.planet_width as int / tileset.chunk_size as int) * chunk_pixel_size_spec(tileset)
            <= u32::MAX,
        (level.planet_height as int / tileset.chunk_size as int) * chunk_pixel_size_spec(tileset)
            <= u32::MAX,
{
    let cs = tileset.chunk_size as int;
    let ts = tileset.tile_size as int;
    let w = level.planet_width as int;
    let h = level.planet_height as int;
    let gw = w / cs;
    let gh = h / cs;
    lemma_fundamental_div_mod(w, cs);
    lemma_fundamental_div_mod(h, cs);
    assert(gw * cs == w && gh * cs == h) by (nonlinear_arith)
        requires
            w == cs * gw + w % cs,
            h == cs * gh + h % cs,
            w % cs == 0,
            h % cs == 0,
    ;
    assert(gw <= w && cs <= w && gh <= h) by (nonlinear_arith)
        requires
            gw * cs == w,
            gh * cs == h,
            gw >= 3,
            gh >= 3,
            cs >= 1,
    ;
    assert(1 <= cs * ts && cs * ts <= w * ts && gw * (cs * ts) == w * ts && gh * (cs * ts) == h
        * ts && h * ts >= cs * ts) by (nonlinear_arith)
        requires
            gw * cs == w,
            gh * cs == h,
            1 <= cs <= w,
            1 <= ts,
            1 <= h,
    ;
}

/// The render-local pixel offset of the chunk slot at `pos` around the
/// center chunk, both axes: the shortest wrapped path from the slot's grid
/// cell to the center, scaled to pixels.
fn render_offset(
    pos: PlanetPosition,
    center: PlanetPosition,
    cs: u32,
    gw: i64,
    gh: i64,
    chunk_px: i64,
) -> (r: (i64, i64))
    requires
        1 <= cs,
        1 <= gw <= 0x1_0000_0000,
        1 <= gh <= 0x1_0000_0000,
        0 <= pos.x < gw * cs,
        0 <= pos.y < gh * cs,
        0 <= center.x < gw,
        0 <= center.y < gh,
        1 <= chunk_px,
        gw * chunk_px <= i64::MAX,
        gh * chunk_px <= i64::MAX,
    ensures
        r.0 == wrapped_delta_spec(pos.x as int / cs as int - center.x, gw as int) * chunk_px,
        r.1 == wrapped_delta_spec(pos.y as int / cs as int - center.y, gh as int) * chunk_px,
{
    proof {
        assert(pos.x < cs * gw && pos.y < cs * gh) by (nonlinear_arith)
            requires
                pos.x < gw * cs,
                pos.y < gh * cs,
        ;
        lemma_multiply_divide_lt(pos.x as int, cs as int, gw as int);
        lemma_multiply_divide_lt(pos.y as int, cs as int, gh as int);
    }
    let gx: i64 = ((pos.x as u64) / (cs as u64)) as i64;
    let gy: i64 = ((pos.y as u64) / (cs as u64)) as i64;
    let rx: i64 = wrapped_delta(gx - center.x, gw);
    let ry: i64 = wrapped_delta(gy - center.y, gh);
    proof {
        assert(-(gw * chunk_px) <= rx * chunk_px <= gw * chunk_px) by (nonlinear_arith)
            requires
                -gw < rx < gw,
                1 <= chunk_px,
        ;
        assert(-(gh * chunk_px) <= ry * chunk_px <= gh * chunk_px) by (nonlinear_arith)
            requires
                -gh < ry < gh,
                1 <= chunk_px,
        ;
    }
    (rx * chunk_px, ry * chunk_px)
}

/// Creates the tilemap with its pool of nine chunks, fully built for the
/// 3x3 neighborhood of chunk-grid center `(0, 0)`, after validating the
/// configuration.  Returns the validation error on a malformed
/// configuration, so a broken level refuses to start.
pub fn spawn_tilemap(level: LevelAssets, tileset: TilesetAssets) -> (r: Result<Tilemap, ConfigError>)
    ensures
        r is Ok <==> config_wf(level, tileset),
        r matches Err(e) ==> Err::<(), ConfigError>(e) == config_check_spec(level, tileset),
        r matches Ok(t) ==> t.wf() && t.level == level && t.tileset == tileset && t.last_center
            == (PlanetPosition { x: 0, y: 0 }),
{
    match validate_config(&level, &tileset) {
        Err(e) => Err(e),
        Ok(()) => {
            proof {
                lemma_config_bounds(level, tileset);
            }
            let cs: u32 = tileset.chunk_size;
            let gw: i64 = (level.planet_width / cs) as i64;
            let gh: i64 = (level.planet_height / cs) as i64;
            let chunk_px: i64 = chunk_pixel_size(&tileset) as i64;
            let center = PlanetPosition { x: 0, y: 0 };
            let ghost e_seq = expected_seq_spec(center, gw as int, gh as int, cs as int);
            let mut chunks: Vec<Chunk> = Vec::new();
            let mut k: usize = 0;
            while k < 9
                invariant
                    config_wf(level, tileset),
                    cs == tileset.chunk_size,
                    gw == level.planet_width as int / cs as int,
                    gh == level.planet_height as int / cs as int,
                    3 <= gw <= 0x1_0000_0000,
                    3 <= gh <= 0x1_0000_0000,
                    gw * cs == level.planet_width,
                    gh * cs == level.planet_height,
                    1 <= chunk_px == chunk_pixel_size_spec(tileset),
                    gw * chunk_px <= u32::MAX,
                    gh * chunk_px <= u32::MAX,
                    center == (PlanetPosition { x: 0, y: 0 }),
                    e_seq == expected_seq_spec(center, gw as int, gh as int, cs as int),
                    0 <= k <= 9,
                    chunks@.len() == k,
                    forall|j: int|
                        0 <= j < k ==> (#[trigger] chunks@[j]).planet_pos == e_seq[j],
                    forall|j: int|
                        0 <= j < k ==> (#[trigger] chunks@[j]).tiles@ == chunk_tiles_spec(
                            level.seed,
                            level.planet_width,
                            level.planet_height,
                            e_seq[j],
                            tileset,
                        ),
                    forall|j: int|
                        0 <= j < k ==> (#[trigger] chunks@[j]).offset_x == wrapped_delta_spec(
                            e_seq[j].x as int / cs as int - center.x,
                            gw as int,
                        ) * chunk_px && chunks@[j].offset_y == wrapped_delta_spec(
                            e_seq[j].y as int / cs as int - center.y,
                            gh as int,
                        ) * chunk_px,
                decreases 9 - k,
            {
                let dx: i64 = (k / 3) as i64 - 1;
                let dy: i64 = (k % 3) as i64 - 1;
                let wx: i64 = wrap_coord(dx, gw);
                let wy: i64 = wrap_coord(dy, gh);
                proof {
                    assert(0 <= wx * cs < gw * cs && 0 <= wy * cs < gh * cs) by (nonlinear_arith)
                        requires
                            0 <= wx < gw,
                            0 <= wy < gh,
                            cs >= 1,
                    ;
                }
                let pos = PlanetPosition { x: wx * cs as i64, y: wy * cs as i64 };
                proof {
                    assert(dx == neighbor_dx(k as int) && dy == neighbor_dy(k as int));
                    assert(pos == expected_coord_spec(center, gw as int, gh as int, cs as int,
                        k as int));
                }
                let tiles = chunk_tile_data(
                    level.seed,
                    level.planet_width,
                    level.planet_height,
                    pos,
                    &tileset,
                );
                let off = render_offset(pos, center, cs, gw, gh, chunk_px);
                chunks.push(Chunk { planet_pos: pos, tiles, offset_x: off.0, offset_y: off.1 });
                k = k + 1;
            }
            let t = Tilemap { level, tileset, chunks, last_center: center };
            proof {
                lemma_expected_distinct(center, gw as int, gh as int, cs as int);
                assert(t.coords_seq() =~= e_seq);
                assert forall|j: int| 0 <= j < 9 implies t.expected_now().contains(
                    #[trigger] t.coords_seq()[j],
                ) by {
                    assert(t.expected_now()[j] == t.coords_seq()[j]);
                }
                assert forall|k2: int| 0 <= k2 < 9 implies t.coords_seq().contains(
                    #[trigger] t.expected_now()[k2],
                ) by {
                    assert(t.coords_seq()[k2] == t.expected_now()[k2]);
                }
            }
            Ok(t)
        },
    }
}

/// A value is in a filtered sequence exactly when it is in the sequence
/// and satisfies the predicate.
proof fn lemma_filter_membership<A>(s: Seq<A>, pred: spec_fn(A) -> bool)
    ensures
        forall|x: A| #[trigger] s.filter(pred).contains(x) <==> s.contains(x) && pred(x),
    decreases s.len(),
{
    reveal(Seq::filter);
    if s.len() == 0 {
        assert forall|x: A| #[trigger] s.filter(pred).contains(x) implies s.contains(x) && pred(
            x,
        ) by {}
    } else {
        let prefix = s.drop_last();
        let a = s.last();
        lemma_filter_membership(prefix, pred);
        assert forall|x: A| #[trigger] s.contains(x) implies prefix.contains(x) || x == a by {
            let i = choose|i: int| 0 <= i < s.len() && s[i] == x;
            if i < s.len() - 1 {
                assert(prefix[i] == x);
            }
        }
        assert forall|x: A| prefix.contains(x) implies #[trigger] s.contains(x) by {
            let i = choose|i: int| 0 <= i < prefix.len() && prefix[i] == x;
            assert(s[i] == x);
        }
        assert(s.contains(a)) by {
            assert(s[s.len() - 1] == a);
        }
        let sub = prefix.filter(pred);
        if pred(a) {
            assert(s.filter(pred) == sub.push(a));
            assert forall|x: A| #[trigger] sub.push(a).contains(x) implies sub.contains(x) || x
                == a by {
                let i = choose|i: int| 0 <= i < sub.push(a).len() && sub.push(a)[i] == x;
                if i < sub.len() {
                    assert(sub[i] == x);
                }
            }
            assert forall|x: A| sub.contains(x) || x == a implies #[trigger] sub.push(a).contains(
                x,
            ) by {
                if sub.contains(x) {
                    let i = choose|i: int| 0 <= i < sub.len() && sub[i] == x;
                    assert(sub.push(a)[i] == x);
                } else {
                    assert(sub.push(a)[sub.len() as int] == x);
                }
            }
        }
    }
}

/// Filtering a duplicate-free sequence leaves it duplicate-free.
proof fn lemma_filter_no_duplicates<A>(s: Seq<A>, pred: spec_fn(A) -> bool)
    requires
        s.no_duplicates(),
    ensures
        s.filter(pred).no_duplicates(),
    decreases s.len(),
{
    reveal(Seq::filter);
    if s.len() == 0 {
    } else {
        let prefix = s.drop_last();
        let a = s.last();
        assert(prefix.no_duplicates());
        lemma_filter_no_duplicates(prefix, pred);
        if pred(a) {
            let sub = prefix.filter(pred);
            assert(!sub.contains(a)) by {
                lemma_filter_membership(prefix, pred);
                if prefix.contains(a) {
                    let i = choose|i: int| 0 <= i < prefix.len() && prefix[i] == a;
                    assert(s[i] == s[s.len() - 1]);
                    assert(false);
                }
            }
            assert forall|i: int, j: int|
                0 <= i < j < sub.push(a).len() implies sub.push(a)[i] != sub.push(a)[j] by {
                if j < sub.len() {
                } else {
                    assert(sub.push(a)[j] == a);
                    assert(sub.contains(sub[i])) by {
                        assert(sub[i] == sub[i]);
                    }
                }
            }
        }
    }
}

/// Splitting a sequence by a predicate and its negation splits its length.
proof fn lemma_filter_split_len<A>(s: Seq<A>, p: spec_fn(A) -> bool, q: spec_fn(A) -> bool)
    requires
        forall|x: A| #[trigger] q(x) == !p(x),
    ensures
        s.filter(p).len() + s.filter(q).len() == s.len(),
    decreases s.len(),
{
    reveal(Seq::filter);
    if s.len() == 0 {
    } else {
        lemma_filter_split_len(s.drop_last(), p, q);
    }
}

/// Counting symmetry for duplicate-free sequences: as many elements of `s`
/// occur in `t` as elements of `t` occur in `s` -- both count the common
/// values.
proof fn lemma_count_common_symmetric<A>(s: Seq<A>, t: Seq<A>)
    requires
        s.no_duplicates(),
        t.no_duplicates(),
    ensures
        s.filter(|x: A| t.contains(x)).len() == t.filter(|x: A| s.contains(x)).len(),
{
    let ps = |x: A| t.contains(x);
    let pt = |x: A| s.contains(x);
    lemma_filter_no_duplicates(s, ps);
    lemma_filter_no_duplicates(t, pt);
    s.filter(ps).unique_seq_to_set();
    t.filter(pt).unique_seq_to_set();
    lemma_filter_membership(s, ps);
    lemma_filter_membership(t, pt);
    assert(s.filter(ps).to_set() =~= t.filter(pt).to_set());
}

/// Appending one element to a sequence extends its filtered form by that
/// element exactly when the element satisfies the predicate.
proof fn lemma_filter_push<A>(s: Seq<A>, a: A, pred: spec_fn(A) -> bool)
    ensures
        s.push(a).filter(pred) == if pred(a) {
            s.filter(pred).push(a)
        } else {
            s.filter(pred)
        },
{
    reveal(Seq::filter);
    assert(s.push(a).drop_last() =~= s);
    assert(s.push(a).last() == a);
}

/// The predicate "does not occur in `s`", used to select free slots and
/// uncovered coordinates.
pub open spec fn absent_from(s: Seq<PlanetPosition>) -> spec_fn(PlanetPosition) -> bool {
    |c: PlanetPosition| !s.contains(c)
}

/// Some slot in `chunks` holds the coordinate `p`.
pub open spec fn holds_coord(chunks: Seq<Chunk>, p: PlanetPosition) -> bool {
    exists|j: int| 0 <= j < chunks.len() && (#[trigger] chunks[j]).planet_pos == p
}

/// Extending a prefix by one element advances the filtered form by that
/// element exactly when the element satisfies the predicate.
proof fn lemma_filter_take_step<A>(s: Seq<A>, pred: spec_fn(A) -> bool, i: int)
    requires
        0 <= i < s.len(),
    ensures
        s.take(i + 1).filter(pred) == if pred(s[i]) {
            s.take(i).filter(pred).push(s[i])
        } else {
            s.take(i).filter(pred)
        },
{
    assert(s.take(i + 1) =~= s.take(i).push(s[i]));
    lemma_filter_push(s.take(i), s[i], pred);
}

/// A longer prefix never filters to fewer elements.
proof fn lemma_filter_prefix_le<A>(s: Seq<A>, pred: spec_fn(A) -> bool, a: int, b: int)
    requires
        0 <= a <= b <= s.len(),
    ensures
        s.take(a).filter(pred).len() <= s.take(b).filter(pred).len(),
{
    assert(s.take(b) =~= s.take(a) + s.take(b).skip(a));
    Seq::<A>::filter_distributes_over_add(s.take(a), s.take(b).skip(a), pred);
}

/// Whether some pooled slot currently holds coordinate `p`.
fn coords_contain(chunks: &Vec<Chunk>, p: PlanetPosition) -> (b: bool)
    ensures
        b == Seq::new(chunks@.len(), |j: int| chunks@[j].planet_pos).contains(p),
{
    let ghost cseq = Seq::new(chunks@.len(), |j: int| chunks@[j].planet_pos);
    let mut i: usize = 0;
    while i < chunks.len()
        invariant
            0 <= i <= chunks@.len(),
            cseq == Seq::new(chunks@.len(), |j: int| chunks@[j].planet_pos),
            forall|j: int| 0 <= j < i ==> cseq[j] != p,
        decreases chunks@.len() - i,
    {
        if chunks[i].planet_pos.x == p.x && chunks[i].planet_pos.y == p.y {
            proof {
                assert(cseq[i as int] == p);
            }
            return true;
        }
        i = i + 1;
    }
    proof {
        if cseq.contains(p) {
            let j = choose|j: int| 0 <= j < cseq.len() && cseq[j] == p;
            assert(false);
        }
    }
    false
}

/// Whether the coordinate list holds `p`.
fn positions_contain(v: &Vec<PlanetPosition>, p: PlanetPosition) -> (b: bool)
    ensures
        b == v@.contains(p),
{
    let mut i: usize = 0;
    while i < v.len()
        invariant
            0 <= i <= v@.len(),
            forall|j: int| 0 <= j < i ==> v@[j] != p,
        decreases v@.len() - i,
    {
        if v[i].x == p.x && v[i].y == p.y {
            proof {
                assert(v@[i as int] == p);
            }
            return true;
        }
        i = i + 1;
    }
    proof {
        if v@.contains(p) {
            let j = choose|j: int| 0 <= j < v@.len() && v@[j] == p;
            assert(false);
        }
    }
    false
}

/// After a relabeling pass -- kept slots unchanged, each free slot given
/// the next uncovered coordinate in order, all uncovered coordinates
/// consumed, buffers rebuilt for reassigned slots and offsets recomputed
/// everywhere -- the pool invariant holds again around the new center.
#[verifier::rlimit(60)]
proof fn lemma_recycle_establish(
    old_t: Tilemap,
    fin: Tilemap,
    center: PlanetPosition,
    e_seq: Seq<PlanetPosition>,
    o_seq: Seq<PlanetPosition>,
    unc: Seq<PlanetPosition>,
)
    requires
        old_t.wf(),
        0 <= center.x < old_t.grid_w_spec(),
        0 <= center.y < old_t.grid_h_spec(),
        e_seq == expected_seq_spec(
            center,
            old_t.grid_w_spec(),
            old_t.grid_h_spec(),
            old_t.tileset.chunk_size as int,
        ),
        e_seq.no_duplicates(),
        o_seq == old_t.coords_seq(),
        unc == e_seq.filter(absent_from(o_seq)),
        fin.level == old_t.level,
        fin.tileset == old_t.tileset,
        fin.last_center == center,
        fin.chunks@.len() == 9,
        forall|j: int|
            0 <= j < 9 && !absent_from(e_seq)((#[trigger] o_seq[j])) ==> fin.chunks@[j].planet_pos
                == o_seq[j] && fin.chunks@[j].tiles == old_t.chunks@[j].tiles,
        forall|j: int|
            0 <= j < 9 && absent_from(e_seq)((#[trigger] o_seq[j])) ==> fin.chunks@[j].planet_pos
                == unc[o_seq.take(j).filter(absent_from(e_seq)).len() as int] && fin.tiles_ok(
                fin.chunks@[j],
            ),
        forall|r: int| 0 <= r < unc.len() ==> holds_coord(fin.chunks@, #[trigger] unc[r]),
        forall|j: int| 0 <= j < 9 ==> fin.offset_ok(#[trigger] fin.chunks@[j]),
    ensures
        fin.wf(),
        forall|j: int|
            0 <= j < 9 && e_seq.contains((#[trigger] old_t.chunks@[j]).planet_pos)
                ==> fin.chunks@[j].planet_pos == old_t.chunks@[j].planet_pos
                && fin.chunks@[j].tiles@ == old_t.chunks@[j].tiles@,
        forall|j: int|
            0 <= j < 9 && !e_seq.contains((#[trigger] old_t.chunks@[j]).planet_pos)
                ==> e_seq.contains(fin.chunks@[j].planet_pos) && !o_seq.contains(
                fin.chunks@[j].planet_pos,
            ),
{
    let free_pred = absent_from(e_seq);
    let unc_pred = absent_from(o_seq);
    let f_coords = fin.coords_seq();
    assert(fin.expected_now() == e_seq);
    lemma_filter_no_duplicates(e_seq, unc_pred);
    lemma_filter_membership(e_seq, unc_pred);
    assert(o_seq.take(9) =~= o_seq);

    // As many slots were free as coordinates were uncovered.
    lemma_count_common_symmetric(o_seq, e_seq);
    lemma_filter_split_len(o_seq, |c: PlanetPosition| e_seq.contains(c), free_pred);
    lemma_filter_split_len(e_seq, |c: PlanetPosition| o_seq.contains(c), unc_pred);
    assert(o_seq.filter(free_pred).len() == unc.len());

    // The rank a free slot consumed is a valid uncovered index.
    assert forall|j: int| 0 <= j < 9 && free_pred(o_seq[j]) implies o_seq.take(j).filter(
        free_pred,
    ).len() < unc.len() by {
        lemma_filter_take_step(o_seq, free_pred, j);
        lemma_filter_prefix_le(o_seq, free_pred, j + 1, 9);
    }

    // Every held coordinate is expected.
    assert forall|j: int| 0 <= j < 9 implies e_seq.contains(#[trigger] f_coords[j]) by {
        assert(f_coords[j] == fin.chunks@[j].planet_pos);
        if free_pred(o_seq[j]) {
            assert(unc.contains(f_coords[j])) by {
                assert(unc[o_seq.take(j).filter(free_pred).len() as int] == f_coords[j]);
            }
        } else {
            assert(f_coords[j] == o_seq[j]);
        }
    }

    // No coordinate is held twice.
    assert forall|j1: int, j2: int| 0 <= j1 < j2 < 9 implies f_coords[j1] != f_coords[j2] by {
        if !free_pred(o_seq[j1]) && !free_pred(o_seq[j2]) {
            assert(f_coords[j1] == o_seq[j1] && f_coords[j2] == o_seq[j2]);
        } else if free_pred(o_seq[j1]) && free_pred(o_seq[j2]) {
            let r1 = o_seq.take(j1).filter(free_pred).len() as int;
            let r2 = o_seq.take(j2).filter(free_pred).len() as int;
            lemma_filter_take_step(o_seq, free_pred, j1);
            lemma_filter_prefix_le(o_seq, free_pred, j1 + 1, j2);
            assert(r1 < r2 < unc.len());
            assert(unc[r1] != unc[r2]);
        } else if !free_pred(o_seq[j1]) && free_pred(o_seq[j2]) {
            let r2 = o_seq.take(j2).filter(free_pred).len() as int;
            assert(unc.contains(unc[r2])) by {
                assert(0 <= r2 < unc.len());
            }
            assert(unc_pred(unc[r2]));
            assert(o_seq.contains(o_seq[j1]));
        } else {
            let r1 = o_seq.take(j1).filter(free_pred).len() as int;
            assert(unc.contains(unc[r1])) by {
                assert(0 <= r1 < unc.len());
            }
            assert(unc_pred(unc[r1]));
            assert(o_seq.contains(o_seq[j2]));
        }
    }

    // Every expected coordinate is held.
    assert forall|kk: int| 0 <= kk < 9 implies f_coords.contains(#[trigger] e_seq[kk]) by {
        if o_seq.contains(e_seq[kk]) {
            let j = choose|j: int| 0 <= j < 9 && o_seq[j] == e_seq[kk];
            assert(!free_pred(o_seq[j]));
            assert(f_coords[j] == e_seq[kk]);
        } else {
            assert(unc.contains(e_seq[kk])) by {
                assert(e_seq.contains(e_seq[kk]));
            }
            let r = choose|r: int| 0 <= r < unc.len() && unc[r] == e_seq[kk];
            assert(holds_coord(fin.chunks@, unc[r]));
            let j = choose|j: int|
                0 <= j < fin.chunks@.len() && (#[trigger] fin.chunks@[j]).planet_pos == unc[r];
            assert(f_coords[j] == e_seq[kk]);
        }
    }

    // Buffers stay consistent with their coordinates.
    assert forall|j: int| 0 <= j < 9 implies fin.tiles_ok(#[trigger] fin.chunks@[j]) by {
        if !free_pred(o_seq[j]) {
            assert(old_t.tiles_ok(old_t.chunks@[j]));
            assert(o_seq[j] == old_t.chunks@[j].planet_pos);
        }
    }

    assert(fin.coords_seq().no_duplicates());
    assert(fin.wf());

    // The per-slot frame conditions of the contract.
    assert forall|j: int|
        0 <= j < 9 && e_seq.contains(
            (#[trigger] old_t.chunks@[j]).planet_pos,
        ) implies fin.chunks@[j].planet_pos == old_t.chunks@[j].planet_pos
        && fin.chunks@[j].tiles@ == old_t.chunks@[j].tiles@ by {
        assert(o_seq[j] == old_t.chunks@[j].planet_pos);
        assert(!free_pred(o_seq[j]));
    }
    assert forall|j: int|
        0 <= j < 9 && !e_seq.contains(
            (#[trigger] old_t.chunks@[j]).planet_pos,
        ) implies e_seq.contains(fin.chunks@[j].planet_pos) && !o_seq.contains(
        fin.chunks@[j].planet_pos,
    ) by {
        assert(o_seq[j] == old_t.chunks@[j].planet_pos);
        assert(free_pred(o_seq[j]));
        let r = o_seq.take(j).filter(free_pred).len() as int;
        lemma_filter_prefix_le(o_seq, free_pred, j + 1, 9);
        lemma_filter_take_step(o_seq, free_pred, j);
        assert(fin.chunks@[j].planet_pos == unc[r]);
        assert(unc.contains(unc[r]));
        assert(unc_pred(unc[r]));
    }
}

impl Tilemap {
    /// The wrapped chunk-grid center implied by a tilemap origin position:
    /// the origin in chunk-pixel units, rounded to the nearest cell and
    /// reduced onto the chunk grid.
    pub open spec fn wrapped_center_spec(self, origin_px_x: int, origin_px_y: int)
        -> PlanetPosition {
        PlanetPosition {
            x: (round_div_spec(origin_px_x, self.chunk_px_spec()) % self.grid_w_spec()) as i64,
            y: (round_div_spec(origin_px_y, self.chunk_px_spec()) % self.grid_h_spec()) as i64,
        }
    }

    /// Snaps the player's pixel position to the nearest multiple of the
    /// chunk pixel size, per axis: the tilemap origin follows the player in
    /// whole chunk steps, staying within half a chunk of it.
    pub fn update_tilemap_origin(&self, player_x: i64, player_y: i64) -> (o: (i64, i64))
        requires
            config_wf(self.level, self.tileset),
            -COORD_LIMIT <= player_x <= COORD_LIMIT,
            -COORD_LIMIT <= player_y <= COORD_LIMIT,
        ensures
            o.0 == round_div_spec(player_x as int, self.chunk_px_spec()) * self.chunk_px_spec(),
            o.1 == round_div_spec(player_y as int, self.chunk_px_spec()) * self.chunk_px_spec(),
            -self.chunk_px_spec() <= 2 * (player_x - o.0) <= self.chunk_px_spec(),
            -self.chunk_px_spec() <= 2 * (player_y - o.1) <= self.chunk_px_spec(),
    {
        proof {
            lemma_config_bounds(self.level, self.tileset);
        }
        let chunk_px: i64 = chunk_pixel_size(&self.tileset) as i64;
        let qx: i64 = round_div(player_x, chunk_px);
        let qy: i64 = round_div(player_y, chunk_px);
        proof {
            lemma_round_div_close(player_x as int, chunk_px as int);
            lemma_round_div_close(player_y as int, chunk_px as int);
        }
        (qx * chunk_px, qy * chunk_px)
    }

    /// One reconciliation step of the scroller, driven by the snapped
    /// tilemap origin.  When the wrapped center chunk is unchanged this is
    /// a no-op.  Otherwise the pool is relabeled: slots whose coordinate is
    /// still in the new 3x3 neighborhood keep their coordinate and buffer
    /// untouched; every other slot is reassigned to a neighborhood
    /// coordinate that was not yet held and its buffer is rebuilt; and all
    /// render offsets are recomputed around the new center.  The pool
    /// invariant `wf` is preserved by every such step, so after any
    /// sequence of moves the nine held coordinates are exactly the wrapped
    /// 3x3 neighborhood of the current center, with no duplicates.
    #[verifier::loop_isolation(false)]
    #[verifier::rlimit(100)]
    pub fn recycle_chunks(&mut self, origin_px_x: i64, origin_px_y: i64)
        requires
            old(self).wf(),
            -COORD_LIMIT <= origin_px_x <= COORD_LIMIT,
            -COORD_LIMIT <= origin_px_y <= COORD_LIMIT,
        ensures
            final(self).wf(),
            final(self).level == old(self).level,
            final(self).tileset == old(self).tileset,
            final(self).last_center == old(self).wrapped_center_spec(
                origin_px_x as int,
                origin_px_y as int,
            ),
            old(self).wrapped_center_spec(origin_px_x as int, origin_px_y as int) == old(
                self,
            ).last_center ==> *final(self) == *old(self),
            forall|j: int|
                0 <= j < 9 && final(self).expected_now().contains(
                    (#[trigger] old(self).chunks@[j]).planet_pos,
                ) ==> final(self).chunks@[j].planet_pos == old(self).chunks@[j].planet_pos
                    && final(self).chunks@[j].tiles@ == old(self).chunks@[j].tiles@,
            forall|j: int|
                0 <= j < 9 && !final(self).expected_now().contains(
                    (#[trigger] old(self).chunks@[j]).planet_pos,
                ) ==> final(self).expected_now().contains(final(self).chunks@[j].planet_pos)
                    && !old(self).coords_seq().contains(final(self).chunks@[j].planet_pos),
    {
        proof {
            lemma_config_bounds(self.level, self.tileset);
        }
        let cs: u32 = self.tileset.chunk_size;
        let gw: i64 = (self.level.planet_width / cs) as i64;
        let gh: i64 = (self.level.planet_height / cs) as i64;
        let chunk_px: i64 = chunk_pixel_size(&self.tileset) as i64;
        let qx: i64 = round_div(origin_px_x, chunk_px);
        let qy: i64 = round_div(origin_px_y, chunk_px);
        let cx: i64 = wrap_coord(qx, gw);
        let cy: i64 = wrap_coord(qy, gh);
        let center = PlanetPosition { x: cx, y: cy };
        if cx == self.last_center.x && cy == self.last_center.y {
            proof {
                assert forall|j: int| 0 <= j < 9 implies self.expected_now().contains(
                    (#[trigger] self.chunks@[j]).planet_pos,
                ) by {
                    assert(self.coords_seq()[j] == self.chunks@[j].planet_pos);
                }
            }
            return ;
        }
        self.last_center = center;
        let ghost o_seq = old(self).coords_seq();
        let ghost e_seq = self.expected_now();
        let ghost free_pred = absent_from(e_seq);
        let ghost unc_pred = absent_from(o_seq);
        proof {
            lemma_expected_distinct(center, gw as int, gh as int, cs as int);
        }

        // The nine coordinates the pool must now cover.
        let mut expected: Vec<PlanetPosition> = Vec::new();
        let mut k: usize = 0;
        while k < 9
            invariant
                0 <= k <= 9,
                expected@.len() == k,
                forall|j: int| 0 <= j < k ==> expected@[j] == e_seq[j],
            decreases 9 - k,
        {
            let dx: i64 = (k / 3) as i64 - 1;
            let dy: i64 = (k % 3) as i64 - 1;
            let wx: i64 = wrap_coord(cx + dx, gw);
            let wy: i64 = wrap_coord(cy + dy, gh);
            proof {
                assert(0 <= wx * cs < gw * cs && 0 <= wy * cs < gh * cs) by (nonlinear_arith)
                    requires
                        0 <= wx < gw,
                        0 <= wy < gh,
                        cs >= 1,
                ;
                assert(dx == neighbor_dx(k as int) && dy == neighbor_dy(k as int));
            }
            expected.push(PlanetPosition { x: wx * cs as i64, y: wy * cs as i64 });
            k = k + 1;
        }
        proof {
            assert(expected@ =~= e_seq);
        }

        // The expected coordinates no slot holds yet, in neighborhood order.
        let mut uncovered: Vec<PlanetPosition> = Vec::new();
        let mut k2: usize = 0;
        while k2 < 9
            invariant
                0 <= k2 <= 9,
                uncovered@ == e_seq.take(k2 as int).filter(unc_pred),
            decreases 9 - k2,
        {
            let p: PlanetPosition = expected[k2];
            let held: bool = coords_contain(&self.chunks, p);
            proof {
                assert(Seq::new(self.chunks@.len(), |j: int| self.chunks@[j].planet_pos)
                    =~= o_seq);
                lemma_filter_take_step(e_seq, unc_pred, k2 as int);
            }
            if !held {
                uncovered.push(p);
            }
            k2 = k2 + 1;
        }
        proof {
            assert(e_seq.take(9) =~= e_seq);
            assert(uncovered@ == e_seq.filter(unc_pred));
            // As many slots are free as coordinates are uncovered.
            lemma_count_common_symmetric(o_seq, e_seq);
            lemma_filter_split_len(o_seq, |c: PlanetPosition| e_seq.contains(c), free_pred);
            lemma_filter_split_len(e_seq, |c: PlanetPosition| o_seq.contains(c), unc_pred);
            assert(o_seq.filter(free_pred).len() == uncovered@.len());
            lemma_filter_no_duplicates(e_seq, unc_pred);
            lemma_filter_membership(e_seq, unc_pred);
        }

        // Pair free slots with uncovered coordinates, in slot order.
        let mut next: usize = 0;
        let mut i: usize = 0;
        while i < 9
            invariant
                0 <= i <= 9,
                next == o_seq.take(i as int).filter(free_pred).len(),
                next <= uncovered@.len(),
                self.chunks@.len() == 9,
                self.level == old(self).level,
                self.tileset == old(self).tileset,
                self.last_center == center,
                forall|j: int| i <= j < 9 ==> self.chunks@[j] == old(self).chunks@[j],
                forall|j: int|
                    0 <= j < i && !free_pred((#[trigger] o_seq[j])) ==> self.chunks@[j] == old(
                        self,
                    ).chunks@[j],
                forall|j: int|
                    0 <= j < i && free_pred((#[trigger] o_seq[j]))
                        ==> self.chunks@[j].planet_pos == uncovered@[o_seq.take(j).filter(
                        free_pred,
                    ).len() as int] && self.tiles_ok(self.chunks@[j]),
                forall|r: int|
                    0 <= r < next ==> holds_coord(self.chunks@, #[trigger] uncovered@[r]),
            decreases 9 - i,
        {
            let ghost pre = self.chunks@;
            let pos_i: PlanetPosition = self.chunks[i].planet_pos;
            let held_in_expected: bool = positions_contain(&expected, pos_i);
            proof {
                assert(pos_i == o_seq[i as int]);
                lemma_filter_take_step(o_seq, free_pred, i as int);
            }
            if !held_in_expected {
                proof {
                    // The next uncovered coordinate exists: the count of
                    // free slots seen so far never catches the total.
                    assert(o_seq =~= o_seq.take(i + 1) + o_seq.skip(i + 1));
                    Seq::<PlanetPosition>::filter_distributes_over_add(
                        o_seq.take(i + 1),
                        o_seq.skip(i + 1),
                        free_pred,
                    );
                    assert(next + 1 <= uncovered@.len());
                }
                let np: PlanetPosition = uncovered[next];
                proof {
                    assert(uncovered@.contains(np)) by {
                        assert(uncovered@[next as int] == np);
                    }
                    assert(e_seq.contains(np));
                    let kk = choose|kk: int| 0 <= kk < e_seq.len() && e_seq[kk] == np;
                    lemma_expected_coord_facts(center, gw as int, gh as int, cs as int, kk);
                }
                let buf: Vec<Option<u16>> = chunk_tile_data(
                    self.level.seed,
                    self.level.planet_width,
                    self.level.planet_height,
                    np,
                    &self.tileset,
                );
                self.chunks[i].planet_pos = np;
                self.chunks[i].tiles = buf;
                next = next + 1;
                proof {
                    assert forall|r: int| 0 <= r < next implies holds_coord(
                        self.chunks@,
                        #[trigger] uncovered@[r],
                    ) by {
                        if r == next - 1 {
                            assert((self.chunks@[i as int]).planet_pos == uncovered@[r]);
                        } else {
                            assert(holds_coord(pre, uncovered@[r]));
                            let j0 = choose|j0: int|
                                0 <= j0 < pre.len() && (#[trigger] pre[j0]).planet_pos
                                    == uncovered@[r];
                            assert((self.chunks@[j0]).planet_pos == uncovered@[r]);
                        }
                    }
                }
            }
            i = i + 1;
        }

        proof {
            assert(o_seq.take(9) =~= o_seq);
            assert(next == uncovered@.len());
        }

        // Recompute every render offset around the new center.
        let ghost mid = *self;
        proof {
            assert forall|r: int| 0 <= r < uncovered@.len() implies holds_coord(
                mid.chunks@,
                #[trigger] uncovered@[r],
            ) by {
                assert(holds_coord(self.chunks@, uncovered@[r]));
            }
        }
        let mut i2: usize = 0;
        while i2 < 9
            invariant
                0 <= i2 <= 9,
                self.chunks@.len() == 9,
                self.level == old(self).level,
                self.tileset == old(self).tileset,
                self.last_center == center,
                forall|j: int| i2 <= j < 9 ==> self.chunks@[j] == mid.chunks@[j],
                forall|j: int|
                    0 <= j < i2 ==> (#[trigger] self.chunks@[j]).planet_pos
                        == mid.chunks@[j].planet_pos && self.chunks@[j].tiles
                        == mid.chunks@[j].tiles,
                forall|j: int| 0 <= j < i2 ==> self.offset_ok(#[trigger] self.chunks@[j]),
            decreases 9 - i2,
        {
            let pos: PlanetPosition = self.chunks[i2].planet_pos;
            proof {
                // Every held coordinate lies on the planet: it is either a
                // kept coordinate (in the old pool, all expected around
                // some center) or a freshly assigned uncovered one.
                if free_pred(o_seq[i2 as int]) {
                    assert(e_seq.contains(pos)) by {
                        let rk = o_seq.take(i2 as int).filter(free_pred).len() as int;
                        lemma_filter_take_step(o_seq, free_pred, i2 as int);
                        lemma_filter_prefix_le(o_seq, free_pred, i2 as int + 1, 9);
                        assert(o_seq.take(9) =~= o_seq);
                        assert(0 <= rk < uncovered@.len());
                        let r = mid.chunks@[i2 as int].planet_pos;
                        assert(uncovered@.contains(r)) by {
                            assert(uncovered@[rk] == r);
                        }
                    }
                } else {
                    assert(e_seq.contains(pos)) by {
                        assert(pos == o_seq[i2 as int]);
                    }
                }
                let kk = choose|kk: int| 0 <= kk < e_seq.len() && e_seq[kk] == pos;
                lemma_expected_coord_facts(center, gw as int, gh as int, cs as int, kk);
            }
            let off: (i64, i64) = render_offset(pos, center, cs, gw, gh, chunk_px);
            self.chunks[i2].offset_x = off.0;
            self.chunks[i2].offset_y = off.1;
            i2 = i2 + 1;
        }

        proof {
            let fin = *self;
            // Carry the pairing facts across the offset pass, whose loop
            // only rewrote offsets.
            assert forall|j: int|
                0 <= j < 9 && !free_pred((#[trigger] o_seq[j])) implies fin.chunks@[j].planet_pos
                == o_seq[j] && fin.chunks@[j].tiles == old(self).chunks@[j].tiles by {
                assert(mid.chunks@[j] == old(self).chunks@[j]);
            }
            assert forall|j: int|
                0 <= j < 9 && free_pred((#[trigger] o_seq[j])) implies fin.chunks@[j].planet_pos
                == uncovered@[o_seq.take(j).filter(free_pred).len() as int] && fin.tiles_ok(
                fin.chunks@[j],
            ) by {
                assert(mid.tiles_ok(mid.chunks@[j]));
            }
            assert forall|r: int| 0 <= r < uncovered@.len() implies holds_coord(
                fin.chunks@,
                #[trigger] uncovered@[r],
            ) by {
                assert(holds_coord(mid.chunks@, uncovered@[r]));
                let j = choose|j: int|
                    0 <= j < mid.chunks@.len() && (#[trigger] mid.chunks@[j]).planet_pos
                        == uncovered@[r];
                assert((fin.chunks@[j]).planet_pos == uncovered@[r]);
            }
            lemma_recycle_establish(*old(self), fin, center, e_seq, o_seq, uncovered@);
            assert(fin.expected_now() == e_seq);
        }
    }
}

/// Facts every expected coordinate enjoys: it lies on the planet and on
/// the chunk grid, and its grid cell is the wrapped neighbor cell.
proof fn lemma_expected_coord_facts(center: PlanetPosition, gw: int, gh: int, cs: int, k: int)
    requires
        gw >= 1,
        gh >= 1,
        cs >= 1,
        gw * cs <= i64::MAX,
        gh * cs <= i64::MAX,
        0 <= k < 9,
    ensures
        0 <= expected_coord_spec(center, gw, gh, cs, k).x < gw * cs,
        0 <= expected_coord_spec(center, gw, gh, cs, k).y < gh * cs,
        expected_coord_spec(center, gw, gh, cs, k).x as int / cs == (center.x + neighbor_dx(k))
            % gw,
        expected_coord_spec(center, gw, gh, cs, k).y as int / cs == (center.y + neighbor_dy(k))
            % gh,
{
    let wx = (center.x + neighbor_dx(k)) % gw;
    let wy = (center.y + neighbor_dy(k)) % gh;
    lemma_mod_division_less_than_divisor(center.x + neighbor_dx(k), gw);
    lemma_mod_division_less_than_divisor(center.y + neighbor_dy(k), gh);
    assert(0 <= wx * cs && wx * cs < gw * cs && 0 <= wy * cs && wy * cs < gh * cs)
        by (nonlinear_arith)
        requires
            0 <= wx < gw,
            0 <= wy < gh,
            cs >= 1,
    ;
    lemma_fundamental_div_mod_converse_div(wx * cs, cs, wx, 0);
    lemma_fundamental_div_mod_converse_div(wy * cs, cs, wy, 0);
}

} // verus!
