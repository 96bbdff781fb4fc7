//! Coordinate arithmetic on the wrapping planet.
//!
//! A planet axis of extent `m` identifies coordinate `v` with `v + m`; every
//! coordinate is reduced into `[0, m)` before use.  This module holds that
//! reduction, rounding to the nearest multiple (used to snap the tilemap
//! origin and to recenter the world), and the shortest-path delta on a
//! finite wrapping axis.

use vstd::prelude::*;
use vstd::arithmetic::div_mod::{
    lemma_fundamental_div_mod, lemma_fundamental_div_mod_converse_mod, lemma_mod_multiples_basic,
    lemma_mod_division_less_than_divisor, lemma_small_mod, lemma_mod_add_multiples_vanish,
};

verus! {

/// Coordinates and pixel positions this module accepts: large enough for any
/// planet, small enough that doubling and adding an axis extent cannot
/// overflow an `i64`.
pub const COORD_LIMIT: i64 = 0x2000_0000_0000_0000;

/// Largest axis extent (in tiles or pixels) the arithmetic here accepts.
pub const EXTENT_LIMIT: i64 = 0x1_0000_0000;

/// An integer 2D coordinate on the planet's tile grid.  Raw values may lie
/// outside the planet; `normalize` reduces them into `[0, extent)` per axis.
#[derive(Clone, Copy, Debug, PartialEq, Eq, Structural)]
pub struct PlanetPosition {
    pub x: i64,
    pub y: i64,
}

/// Euclidean reduction of `v` into `[0, m)`; in specifications `%` on `int`
/// is already Euclidean for positive `m`.
pub open spec fn wrap_spec(v: int, m: int) -> int {
    v % m
}

/// `v` reduced into `[0, m)`.
pub fn wrap_coord(v: i64, m: i64) -> (r: i64)
    requires
        1 <= m,
        i64::MIN < v,
    ensures
        r == wrap_spec(v as int, m as int),
        0 <= r < m,
{
    if v >= 0 {
        let a: u64 = v as u64;
        let mu: u64 = m as u64;
        let t: u64 = a % mu;
        t as i64
    } else {
        let a: u64 = (-v) as u64;
        let mu: u64 = m as u64;
        let t: u64 = a % mu;
        proof {
            lemma_fundamental_div_mod(a as int, m as int);
            let q: int = (a as int) / (m as int);
            assert(a == (m as int) * q + (a as int) % (m as int));
            if t == 0 {
                assert(v as int == (-q) * (m as int)) by (nonlinear_arith)
                    requires
                        v as int == -(a as int),
                        a as int == (m as int) * q,
                ;
                lemma_mod_multiples_basic(-q, m as int);
            } else {
                assert(v as int == (-q - 1) * (m as int) + ((m as int) - (t as int)))
                    by (nonlinear_arith)
                    requires
                        v as int == -(a as int),
                        a as int == (m as int) * q + (t as int),
                ;
                lemma_fundamental_div_mod_converse_mod(v as int, m as int, -q - 1, m - t);
            }
        }
        if t == 0 {
            0
        } else {
            m - (t as i64)
        }
    }
}

impl PlanetPosition {
    /// The position reduced onto a planet of the given extents.
    pub open spec fn normalize_spec(self, width: int, height: int) -> PlanetPosition {
        PlanetPosition {
            x: wrap_spec(self.x as int, width) as i64,
            y: wrap_spec(self.y as int, height) as i64,
        }
    }

    /// Reduces both coordinates onto the planet, so that each lies in
    /// `[0, extent)`.
    pub fn normalize(self, width: u32, height: u32) -> (r: PlanetPosition)
        requires
            width >= 1,
            height >= 1,
            i64::MIN < self.x,
            i64::MIN < self.y,
        ensures
            r == self.normalize_spec(width as int, height as int),
            0 <= r.x < width,
            0 <= r.y < height,
    {
        PlanetPosition {
            x: wrap_coord(self.x, width as i64),
            y: wrap_coord(self.y, height as i64),
        }
    }
}

/// Law: normalizing a position that is already in `[0, extent)` on both axes
/// leaves it unchanged.
pub proof fn lemma_normalize_idempotent(pos: PlanetPosition, width: int, height: int)
    requires
        0 <= pos.x < width,
        0 <= pos.y < height,
    ensures
        pos.normalize_spec(width, height) == pos,
{
    lemma_small_mod(pos.x as nat, width as nat);
    lemma_small_mod(pos.y as nat, height as nat);
}

/// Law: shifting a coordinate by a whole extent does not change its
/// normalized value; position `extent + k` reduces exactly as `k` does.
pub proof fn lemma_normalize_period(pos: PlanetPosition, width: int, height: int)
    requires
        width >= 1,
        height >= 1,
        pos.x + width <= i64::MAX,
        pos.y + height <= i64::MAX,
    ensures
        (PlanetPosition { x: (pos.x + width) as i64, y: pos.y }).normalize_spec(width, height)
            == pos.normalize_spec(width, height),
        (PlanetPosition { x: pos.x, y: (pos.y + height) as i64 }).normalize_spec(width, height)
            == pos.normalize_spec(width, height),
{
    lemma_mod_add_multiples_vanish(pos.x as int, width);
    lemma_mod_add_multiples_vanish(pos.y as int, height);
}

/// The multiple of `m` nearest to `v`, ties rounded away from zero, given as
/// the quotient `round(v / m)`.
pub open spec fn round_div_spec(v: int, m: int) -> int {
    if v >= 0 {
        (2 * v + m) / (2 * m)
    } else {
        -((2 * (-v) + m) / (2 * m))
    }
}

/// Rounds `v / m` to the nearest integer, ties away from zero.
pub fn round_div(v: i64, m: i64) -> (q: i64)
    requires
        1 <= m <= EXTENT_LIMIT,
        -COORD_LIMIT <= v <= COORD_LIMIT,
    ensures
        q == round_div_spec(v as int, m as int),
        -COORD_LIMIT <= q <= COORD_LIMIT,
{
    proof {
        lemma_round_div_close(v as int, m as int);
        let qs: int = round_div_spec(v as int, m as int);
        assert(-COORD_LIMIT <= qs <= COORD_LIMIT) by (nonlinear_arith)
            requires
                -m <= 2 * (v - qs * m) <= m,
                1 <= m,
                -COORD_LIMIT <= v <= COORD_LIMIT,
        ;
    }
    if v >= 0 {
        let num: u64 = (2 * v + m) as u64;
        let den: u64 = (2 * m) as u64;
        (num / den) as i64
    } else {
        let num: u64 = (2 * (-v) + m) as u64;
        let den: u64 = (2 * m) as u64;
        -((num / den) as i64)
    }
}

/// The nearest multiple is within half of `m` of `v`.
pub proof fn lemma_round_div_close(v: int, m: int)
    requires
        m >= 1,
    ensures
        -m <= 2 * (v - round_div_spec(v, m) * m) <= m,
{
    if v >= 0 {
        lemma_fundamental_div_mod(2 * v + m, 2 * m);
        lemma_mod_division_less_than_divisor(2 * v + m, 2 * m);
        let q: int = (2 * v + m) / (2 * m);
        assert(2 * (v - q * m) == (2 * v + m) % (2 * m) - m) by (nonlinear_arith)
            requires
                2 * v + m == (2 * m) * q + (2 * v + m) % (2 * m),
        ;
    } else {
        lemma_fundamental_div_mod(2 * (-v) + m, 2 * m);
        lemma_mod_division_less_than_divisor(2 * (-v) + m, 2 * m);
        let q: int = (2 * (-v) + m) / (2 * m);
        assert(2 * (v - (-q) * m) == m - (2 * (-v) + m) % (2 * m)) by (nonlinear_arith)
            requires
                2 * (-v) + m == (2 * m) * q + (2 * (-v) + m) % (2 * m),
        ;
    }
}

/// The shortest signed distance that `d` represents on a wrapping axis of
/// extent `m`: raw differences beyond half the extent cross the seam instead.
pub open spec fn wrapped_delta_spec(d: int, m: int) -> int {
    if d > m / 2 {
        d - m
    } else if d < -(m / 2) {
        d + m
    } else {
        d
    }
}

/// Maps a raw coordinate difference to its shortest-path representative on a
/// wrapping axis of extent `m`.
pub fn wrapped_delta(d: i64, m: i64) -> (r: i64)
    requires
        1 <= m <= EXTENT_LIMIT,
        -m < d < m,
    ensures
        r == wrapped_delta_spec(d as int, m as int),
        -m < r < m,
{
    let half: i64 = m / 2;
    if d > half {
        d - m
    } else if d < -half {
        d + m
    } else {
        d
    }
}

} // verus!
