//! Pure placement math: window dimensions, grid-to-world conversion, the
//! anchor that recenters the window on the observer, and the radius tests
//! that gate creation and eviction.
//!
//! All of it is exact integer arithmetic. World units are whole numbers, the
//! window anchor snaps the observer's position to the tile lattice with
//! round-half-away-from-zero division, and radius comparisons against a
//! rational factor of the window extent are made on squared distances, so no
//! square root and no rounding error enters.

use vstd::arithmetic::div_mod::{lemma_fundamental_div_mod, lemma_mod_bound};
use vstd::arithmetic::mul::{lemma_mul_is_associative, lemma_mul_unary_negation};
use vstd::prelude::*;

use crate::tile::{POS_LIMIT, TILE_BOUND, WorldPos};

verus! {

/// Largest window side (cells per side) the engine accepts.
pub const MAX_EXTENT: usize = 0xFFFF;

/// Largest tile side (world units per cell) the engine accepts.
pub const MAX_TILE: usize = 0xFFFF;

/// Largest numerator or denominator of a radius factor.
pub const MAX_FACTOR: u32 = 0xFFFF;

/// The window dimensions: how many cells stand in a row, and how many world
/// units each cell's side spans.
#[derive(Clone, Copy, PartialEq, Eq, Structural, Debug)]
pub struct Kare {
    /// Cells per side of the square window.
    pub bir_siradaki_kare_sayisi: usize,
    /// World units per cell side.
    pub kare_kenar_uzunlugu: usize,
}

impl Kare {
    /// Both dimensions positive and small enough for exact machine
    /// arithmetic.
    pub open spec fn valid(self) -> bool {
        &&& 1 <= self.bir_siradaki_kare_sayisi <= MAX_EXTENT
        &&& 1 <= self.kare_kenar_uzunlugu <= MAX_TILE
    }

    /// The window extent in world units: cells per side times units per cell.
    pub open spec fn spec_extent(self) -> int {
        self.bir_siradaki_kare_sayisi * self.kare_kenar_uzunlugu
    }

    /// How many cells the window holds.
    pub open spec fn spec_area(self) -> int {
        self.bir_siradaki_kare_sayisi * self.bir_siradaki_kare_sayisi
    }
}

impl Default for Kare {
    /// The zero window the dimensions resource starts from before a real
    /// configuration is set; the engine's constructor rejects it.
    fn default() -> (r: Self)
        ensures
            r.bir_siradaki_kare_sayisi == 0,
            r.kare_kenar_uzunlugu == 0,
    {
        Kare { bir_siradaki_kare_sayisi: 0, kare_kenar_uzunlugu: 0 }
    }
}

/// `a / t` rounded half away from zero: how the observer's position snaps to
/// the tile lattice.
pub open spec fn spec_round_div(a: int, t: int) -> int
    recommends
        t >= 1,
{
    if a >= 0 {
        (2 * a + t) / (2 * t)
    } else {
        -((2 * (-a) + t) / (2 * t))
    }
}

/// Half the window extent, in world units; the window spans this far before
/// the anchor so that the observer sits near its center.
pub open spec fn spec_half_extent(n: int, t: int) -> int {
    (n * t) / 2
}

/// The window anchor for observer axis position `obs`: the observer's
/// position snapped to the nearest multiple of the tile size.
pub open spec fn spec_anchor(obs: int, t: int) -> int {
    t * spec_round_div(obs, t)
}

/// The world coordinate of a tile on one axis: its offset within the window,
/// shifted back by half the extent and forward to the anchor.
pub open spec fn spec_tile_axis(w: int, obs: int, n: int, t: int) -> int {
    w - spec_half_extent(n, t) + spec_anchor(obs, t)
}

/// The squared Euclidean distance from `obs` to the ground-level point
/// `(px, 0, pz)` — where every tile stands.
pub open spec fn spec_dist_sq_to_ground(obs: WorldPos, px: int, pz: int) -> int {
    (obs.x - px) * (obs.x - px) + obs.y * obs.y + (obs.z - pz) * (obs.z - pz)
}

/// Whether squared distance `d2` lies within `(num / den) * e` of a point,
/// for window extent `e`: the exact, cross-multiplied form of
/// `sqrt(d2) <= (num / den) * e`.
pub open spec fn spec_within_radius(d2: int, num: int, den: int, e: int) -> bool {
    d2 * den * den <= num * num * e * e
}

/// The product of two values stays within the product of their bounds.
pub(crate) proof fn lemma_mul_bounds_nonneg(x: int, y: int, bx: int, by: int)
    by (nonlinear_arith)
    requires
        0 <= x <= bx,
        0 <= y <= by,
    ensures
        0 <= x * y <= bx * by,
{
}

/// A square of a bounded value stays within the square of the bound.
pub(crate) proof fn lemma_square_bound(x: int, b: int)
    by (nonlinear_arith)
    requires
        -b <= x <= b,
        0 <= b,
    ensures
        0 <= x * x <= b * b,
{
}

/// A sum of three squares is never negative.
proof fn lemma_sum_squares_nonneg(a: int, b: int, c: int)
    by (nonlinear_arith)
    ensures
        a * a + b * b + c * c >= 0,
{
}

/// A squared distance is never negative.
pub proof fn lemma_dist_sq_nonneg(obs: WorldPos, px: int, pz: int)
    ensures
        spec_dist_sq_to_ground(obs, px, pz) >= 0,
{
    lemma_sum_squares_nonneg(obs.x - px, obs.y as int, obs.z - pz);
}

/// Rounding division lands within one tile of the exact quotient:
/// `t * spec_round_div(a, t)` differs from `a` by at most `t`.
pub proof fn lemma_round_div_close(a: int, t: int)
    requires
        t >= 1,
    ensures
        a - t <= t * spec_round_div(a, t) <= a + t,
{
    if a >= 0 {
        let q = (2 * a + t) / (2 * t);
        lemma_fundamental_div_mod(2 * a + t, 2 * t);
        lemma_mod_bound(2 * a + t, 2 * t);
        lemma_mul_is_associative(2, t, q);
    } else {
        let q = (2 * (-a) + t) / (2 * t);
        lemma_fundamental_div_mod(2 * (-a) + t, 2 * t);
        lemma_mod_bound(2 * (-a) + t, 2 * t);
        lemma_mul_is_associative(2, t, q);
        lemma_mul_unary_negation(t, q);
    }
}

/// Tile positions computed from a bounded observer stay within
/// [`TILE_BOUND`] on each axis.
pub proof fn lemma_tile_axis_bounded(w: int, obs: int, n: int, t: int)
    requires
        0 <= w <= 0x1_0000_0000,
        -POS_LIMIT <= obs <= POS_LIMIT,
        1 <= n <= MAX_EXTENT,
        1 <= t <= MAX_TILE,
    ensures
        -TILE_BOUND <= spec_tile_axis(w, obs, n, t) <= TILE_BOUND,
{
    lemma_mul_bounds_nonneg(n, t, MAX_EXTENT as int, MAX_TILE as int);
    lemma_fundamental_div_mod(n * t, 2);
    lemma_mod_bound(n * t, 2);
    lemma_round_div_close(obs, t);
}

/// Scaling the radius factor up cannot move a point from inside the radius
/// to outside it: if `d2` lies within factor `cn / cd` of extent `e`, it
/// also lies within any factor `en / ed` at least as large.
proof fn lemma_radius_factor_monotone(d2: int, cn: int, cd: int, en: int, ed: int, e: int)
    by (nonlinear_arith)
    requires
        0 <= d2,
        1 <= cd,
        1 <= ed,
        0 <= cn,
        0 <= en,
        0 <= e,
        cn * ed <= en * cd,
        d2 * cd * cd <= cn * cn * e * e,
    ensures
        d2 * ed * ed <= en * en * e * e,
{
}

/// The hysteresis band: a point within the creation radius of the window
/// extent is also within the eviction radius, whenever the eviction factor
/// is at least the creation factor. A tile created in range is therefore
/// never eligible for eviction on the tick that created it.
pub proof fn lemma_hysteresis(
    d2: int,
    c_num: int,
    c_den: int,
    e_num: int,
    e_den: int,
    e: int,
)
    requires
        0 <= d2,
        0 <= c_num,
        1 <= c_den,
        0 <= e_num,
        1 <= e_den,
        0 <= e,
        c_num * e_den <= e_num * c_den,
        spec_within_radius(d2, c_num, c_den, e),
    ensures
        spec_within_radius(d2, e_num, e_den, e),
{
    lemma_radius_factor_monotone(d2, c_num, c_den, e_num, e_den, e);
}

/// Converts a grid cell index on each axis into its offset in world units
/// within the window.
pub fn grid_to_world(x: usize, z: usize, kare_kenar_uzunlugu: usize) -> (r: (i64, i64))
    requires
        x < MAX_EXTENT,
        z < MAX_EXTENT,
        kare_kenar_uzunlugu <= MAX_TILE,
    ensures
        r.0 == x * kare_kenar_uzunlugu,
        r.1 == z * kare_kenar_uzunlugu,
        0 <= r.0 <= 0x1_0000_0000,
        0 <= r.1 <= 0x1_0000_0000,
{
    proof {
        lemma_mul_bounds_nonneg(x as int, kare_kenar_uzunlugu as int, MAX_EXTENT as int, MAX_TILE as int);
        lemma_mul_bounds_nonneg(z as int, kare_kenar_uzunlugu as int, MAX_EXTENT as int, MAX_TILE as int);
    }
    ((x as i64) * (kare_kenar_uzunlugu as i64), (z as i64) * (kare_kenar_uzunlugu as i64))
}

/// `a / t`, rounded half away from zero.
pub fn round_div(a: i64, t: i64) -> (r: i64)
    requires
        1 <= t <= MAX_TILE,
        -POS_LIMIT <= a <= POS_LIMIT,
    ensures
        r == spec_round_div(a as int, t as int),
        a - t <= t * r <= a + t,
{
    proof {
        lemma_round_div_close(a as int, t as int);
    }
    if a >= 0 {
        let q = (2 * (a as u64) + (t as u64)) / (2 * (t as u64));
        q as i64
    } else {
        let na = (-(a as i128)) as u64;
        let q = (2 * na + (t as u64)) / (2 * (t as u64));
        -(q as i64)
    }
}

/// Places the window cell whose in-window offsets are `world_x` and
/// `world_z`: shifts each axis back by half the window extent and forward to
/// the anchor, so the observer sits near the window's center. Tiles stand at
/// ground level.
pub fn calculate_tile_position(observer: &WorldPos, world_x: i64, world_z: i64, kare: &Kare) -> (
    r: WorldPos)
    requires
        kare.valid(),
        observer.bounded(),
        0 <= world_x <= 0x1_0000_0000,
        0 <= world_z <= 0x1_0000_0000,
    ensures
        r.x == spec_tile_axis(
            world_x as int,
            observer.x as int,
            kare.bir_siradaki_kare_sayisi as int,
            kare.kare_kenar_uzunlugu as int,
        ),
        r.y == 0,
        r.z == spec_tile_axis(
            world_z as int,
            observer.z as int,
            kare.bir_siradaki_kare_sayisi as int,
            kare.kare_kenar_uzunlugu as int,
        ),
        r.tile_bounded(),
{
    let n = kare.bir_siradaki_kare_sayisi;
    let t = kare.kare_kenar_uzunlugu;
    proof {
        lemma_mul_bounds_nonneg(n as int, t as int, MAX_EXTENT as int, MAX_TILE as int);
        lemma_fundamental_div_mod(n as int * t as int, 2);
        lemma_mod_bound(n as int * t as int, 2);
        lemma_tile_axis_bounded(
            world_x as int,
            observer.x as int,
            n as int,
            t as int,
        );
        lemma_tile_axis_bounded(
            world_z as int,
            observer.z as int,
            n as int,
            t as int,
        );
    }
    let half = (((n as u64) * (t as u64)) / 2) as i64;
    let qx = round_div(observer.x, t as i64);
    let qz = round_div(observer.z, t as i64);
    let anchor_x = (t as i64) * qx;
    let anchor_z = (t as i64) * qz;
    WorldPos { x: world_x - half + anchor_x, y: 0, z: world_z - half + anchor_z }
}

/// Whether the ground-level point (`location_x`, 0, `location_z`) lies
/// within `(num / den)` of the window extent from the observer — the range
/// test that gates tile creation, and (with the eviction factor, negated)
/// the distance test that selects tiles for eviction. Exact: compares
/// squared distances cross-multiplied, never a rounded square root.
pub fn is_tile_in_range(
    observer: &WorldPos,
    location_x: i64,
    location_z: i64,
    kare: &Kare,
    num: u32,
    den: u32,
) -> (r: bool)
    requires
        kare.valid(),
        observer.bounded(),
        -TILE_BOUND <= location_x <= TILE_BOUND,
        -TILE_BOUND <= location_z <= TILE_BOUND,
        1 <= num <= MAX_FACTOR,
        1 <= den <= MAX_FACTOR,
    ensures
        r == spec_within_radius(
            spec_dist_sq_to_ground(*observer, location_x as int, location_z as int),
            num as int,
            den as int,
            kare.spec_extent(),
        ),
{
    let dx = observer.x as i128 - location_x as i128;
    let dy = observer.y as i128;
    let dz = observer.z as i128 - location_z as i128;
    proof {
        lemma_square_bound(dx as int, 0x800_0000_0000);
        lemma_square_bound(dy as int, 0x800_0000_0000);
        lemma_square_bound(dz as int, 0x800_0000_0000);
    }
    let d2 = dx * dx + dy * dy + dz * dz;
    let n = kare.bir_siradaki_kare_sayisi;
    let t = kare.kare_kenar_uzunlugu;
    proof {
        lemma_mul_bounds_nonneg(n as int, t as int, MAX_EXTENT as int, MAX_TILE as int);
    }
    let e = (n as i128) * (t as i128);
    proof {
        lemma_mul_bounds_nonneg(
            d2 as int,
            den as int,
            (3 * 0x800_0000_0000 * 0x800_0000_0000) as int,
            MAX_FACTOR as int,
        );
        lemma_mul_bounds_nonneg(
            d2 as int * den as int,
            den as int,
            (3 * 0x800_0000_0000 * 0x800_0000_0000 * 0x10000) as int,
            MAX_FACTOR as int,
        );
        lemma_mul_bounds_nonneg(num as int, num as int, MAX_FACTOR as int, MAX_FACTOR as int);
        lemma_mul_bounds_nonneg(
            num as int * num as int,
            e as int,
            0x1_0000_0000,
            0x1_0000_0000,
        );
        lemma_mul_bounds_nonneg(
            num as int * num as int * e as int,
            e as int,
            0x1_0000_0000_0000_0000,
            0x1_0000_0000,
        );
    }
    let lhs = d2 * (den as i128) * (den as i128);
    let rhs = (num as i128) * (num as i128) * e * e;
    lhs <= rhs
}

} // verus!
