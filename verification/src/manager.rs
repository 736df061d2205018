//! The streaming window manager: the generate/update/evict cycle.
//!
//! Driven once per scheduling tick with the observer's position, the elapsed
//! time and a movement-intent signal, it materializes the window of tiles
//! around the observer (all of it when the registry is empty, incrementally
//! afterwards), selects each new tile's type from its already-decided
//! neighbors, and evicts tiles whose distance from the observer exceeds the
//! eviction radius. Its outputs are plain creation and removal requests for
//! the external collaborator that renders tiles.

use vstd::prelude::*;

use crate::mapper::{
    Kare, MAX_FACTOR, calculate_tile_position, grid_to_world, is_tile_in_range,
    lemma_mul_bounds_nonneg, spec_dist_sq_to_ground, spec_tile_axis, spec_within_radius,
};
use crate::registry::{TileRegistry, distinct_cells, occupies};
use crate::rules::{AssetData, WFCRules};
use crate::selector::{rng_from_seed, selection_ok, wfc_select_tile};
use crate::tile::{Block, GridCoordinate, Tile, TileType, WorldPos};

verus! {

/// The immutable configuration the manager is constructed with.
pub struct StreamConfig {
    /// The window dimensions: cells per side, world units per cell.
    pub kare: Kare,
    /// Numerator of the creation radius, as a fraction of the window extent.
    pub creation_radius_num: u32,
    /// Denominator of the creation radius factor.
    pub creation_radius_den: u32,
    /// Numerator of the eviction radius, as a fraction of the window extent.
    pub eviction_radius_num: u32,
    /// Denominator of the eviction radius factor.
    pub eviction_radius_den: u32,
    /// Minimum elapsed time between incremental generation passes.
    pub generation_cooldown: u64,
    /// Minimum elapsed time between eviction sweeps.
    pub eviction_cooldown: u64,
    /// Which tile types may stand beside which.
    pub rules: WFCRules,
    /// The fallback type when a selection is contradictory.
    pub default_type: TileType,
    /// Which external asset represents each tile type.
    pub assets: AssetData,
}

impl StreamConfig {
    /// The window dimensions are in range.
    pub open spec fn window_ok(self) -> bool {
        self.kare.valid()
    }

    /// Every radius factor is positive and small enough for exact
    /// arithmetic.
    pub open spec fn factors_in_range(self) -> bool {
        &&& 1 <= self.creation_radius_num <= MAX_FACTOR
        &&& 1 <= self.creation_radius_den <= MAX_FACTOR
        &&& 1 <= self.eviction_radius_num <= MAX_FACTOR
        &&& 1 <= self.eviction_radius_den <= MAX_FACTOR
    }

    /// The eviction radius strictly exceeds the creation radius: the
    /// hysteresis band that keeps tiles from being created and evicted at
    /// the same boundary.
    pub open spec fn hysteresis_ok(self) -> bool {
        self.creation_radius_num * self.eviction_radius_den < self.eviction_radius_num
            * self.creation_radius_den
    }

    /// Everything the engine relies on, validated once at construction.
    pub open spec fn valid(self) -> bool {
        &&& self.window_ok()
        &&& self.factors_in_range()
        &&& self.hysteresis_ok()
        &&& self.rules.is_complete()
        &&& self.assets.is_complete()
    }
}

/// Why a configuration was rejected at construction.
#[derive(Clone, Copy, PartialEq, Eq, Structural, Debug)]
pub enum ConfigError {
    /// A window dimension is zero or too large.
    BadWindow,
    /// A radius factor numerator or denominator is zero or too large.
    BadFactors,
    /// The eviction radius does not exceed the creation radius.
    NoHysteresis,
    /// Some tile type has no adjacency rule.
    IncompleteRules,
    /// Some tile type has no asset.
    IncompleteAssets,
}

/// A request to materialize one tile externally.
#[derive(Clone, PartialEq, Eq, Debug)]
pub struct CreationRequest {
    /// The window-relative cell the tile was created for.
    pub coordinate: GridCoordinate,
    /// Where the tile stands in world space.
    pub world_position: WorldPos,
    /// The type selected for the tile.
    pub tile_type: TileType,
    /// The identifier of the external asset to represent it with.
    pub asset: String,
    /// The tag the representation carries.
    pub block: Block,
    /// The opaque handle the registry tracks the representation by.
    pub handle: u64,
}

/// A request to release one tile's external representation.
#[derive(Clone, Copy, PartialEq, Eq, Structural, Debug)]
pub struct RemovalRequest {
    /// The handle the representation was created under.
    pub handle: u64,
}

/// Everything one tick asks of the external collaborator.
#[derive(Clone, PartialEq, Eq, Debug)]
pub struct TickOutput {
    /// Tiles to materialize, in scan order.
    pub creations: Vec<CreationRequest>,
    /// Representations to release, in registry order.
    pub removals: Vec<RemovalRequest>,
}

/// The tile a creation request registers.
pub open spec fn tile_of_request(c: CreationRequest) -> Tile {
    Tile {
        coordinate: c.coordinate,
        tile_type: c.tile_type,
        world_position: c.world_position,
        external_handle: c.handle,
    }
}

/// The world x-coordinate of window cell column `x`, for this observer.
pub open spec fn cell_pos_x(x: int, obs: WorldPos, kare: Kare) -> int {
    spec_tile_axis(
        x * kare.kare_kenar_uzunlugu,
        obs.x as int,
        kare.bir_siradaki_kare_sayisi as int,
        kare.kare_kenar_uzunlugu as int,
    )
}

/// The world z-coordinate of window cell row `z`, for this observer.
pub open spec fn cell_pos_z(z: int, obs: WorldPos, kare: Kare) -> int {
    spec_tile_axis(
        z * kare.kare_kenar_uzunlugu,
        obs.z as int,
        kare.bir_siradaki_kare_sayisi as int,
        kare.kare_kenar_uzunlugu as int,
    )
}

/// Whether window cell `(x, z)` lies within the creation radius of the
/// observer.
pub open spec fn cell_in_range(x: int, z: int, obs: WorldPos, cfg: StreamConfig) -> bool {
    spec_within_radius(
        spec_dist_sq_to_ground(
            obs,
            cell_pos_x(x, obs, cfg.kare),
            cell_pos_z(z, obs, cfg.kare),
        ),
        cfg.creation_radius_num as int,
        cfg.creation_radius_den as int,
        cfg.kare.spec_extent(),
    )
}

/// Whether no tile of `reg` occupies the world cell that window cell
/// `(x, z)` maps to.
pub open spec fn cell_free(
    x: int,
    z: int,
    obs: WorldPos,
    cfg: StreamConfig,
    reg: Seq<Tile>,
) -> bool {
    !occupies(reg, cell_pos_x(x, obs, cfg.kare), cell_pos_z(z, obs, cfg.kare))
}

/// Whether a pass creates a tile at window cell `(x, z)`: the cell must be
/// unoccupied, and — in a range-gated (incremental) pass — within the
/// creation radius.
pub open spec fn cell_eligible(
    x: int,
    z: int,
    obs: WorldPos,
    cfg: StreamConfig,
    reg: Seq<Tile>,
    gated: bool,
) -> bool {
    (gated ==> cell_in_range(x, z, obs, cfg)) && cell_free(x, z, obs, cfg, reg)
}

/// Whether `cs` holds a request for window cell `(x, z)`.
pub open spec fn creates_cell(cs: Seq<CreationRequest>, x: int, z: int) -> bool {
    exists|k: int|
        0 <= k < cs.len() && (#[trigger] cs[k]).coordinate.x == x && cs[k].coordinate.z == z
}

/// Scan order of the generation pass: cell `(a, b)` is decided before cell
/// `(x, z)`.
pub open spec fn scanned_before(a: int, b: int, x: int, z: int) -> bool {
    a < x || (a == x && b < z)
}

/// What each single creation request of a pass satisfies: a window cell in
/// bounds, the placement this observer and window dictate, eligibility
/// against the registry the pass started from, and the configured asset of
/// its type.
pub open spec fn request_wf(
    c: CreationRequest,
    obs: WorldPos,
    cfg: StreamConfig,
    reg0: Seq<Tile>,
    gated: bool,
) -> bool {
    &&& c.coordinate.x < cfg.kare.bir_siradaki_kare_sayisi
    &&& c.coordinate.z < cfg.kare.bir_siradaki_kare_sayisi
    &&& c.world_position.x == cell_pos_x(c.coordinate.x as int, obs, cfg.kare)
    &&& c.world_position.y == 0
    &&& c.world_position.z == cell_pos_z(c.coordinate.z as int, obs, cfg.kare)
    &&& c.world_position.tile_bounded()
    &&& cell_eligible(c.coordinate.x as int, c.coordinate.z as int, obs, cfg, reg0, gated)
    &&& cfg.assets.has_asset(c.tile_type)
    &&& c.asset@ == cfg.assets.spec_asset(c.tile_type)
    &&& c.block.id == 1
}

/// The type the scratch grid records at cell `(x, z)`, on a grid stored row
/// by row.
pub open spec fn grid_at(g: Seq<Option<TileType>>, n: int, x: int, z: int) -> Option<
    TileType,
> {
    g[x * n + z]
}

/// The neighbor slots consulted when cell `(x, z)` was decided, in the
/// order west, north, east, south. In scan order the west and north
/// neighbors are already decided; east and south are still undecided and
/// impose no constraint.
pub open spec fn pass_neighbors(g: Seq<Option<TileType>>, n: int, x: int, z: int) -> Seq<
    Option<TileType>,
> {
    seq![
        if x > 0 {
            grid_at(g, n, x - 1, z)
        } else {
            None
        },
        if z > 0 {
            grid_at(g, n, x, z - 1)
        } else {
            None
        },
        None,
        None,
    ]
}

/// Every decided cell of the scratch grid holds a type the selector could
/// have returned for its decision-time neighbors: a candidate, or the
/// default type under a contradiction.
pub open spec fn grid_selection_consistent(
    g: Seq<Option<TileType>>,
    n: int,
    cfg: StreamConfig,
) -> bool {
    forall|x: int, z: int|
        0 <= x < n && 0 <= z < n && (#[trigger] grid_at(g, n, x, z)) is Some ==> selection_ok(
            cfg.rules,
            pass_neighbors(g, n, x, z),
            cfg.default_type,
            grid_at(g, n, x, z)->0,
        )
}

/// Every creation request's type is what the scratch grid decided for its
/// cell.
pub open spec fn requests_match_grid(
    cs: Seq<CreationRequest>,
    g: Seq<Option<TileType>>,
    n: int,
) -> bool {
    forall|k: int|
        0 <= k < cs.len() ==> grid_at(
            g,
            n,
            (#[trigger] cs[k]).coordinate.x as int,
            cs[k].coordinate.z as int,
        ) == Some(cs[k].tile_type)
}

/// Local consistency of one whole pass: some scratch grid decides a type
/// for every created cell (and, in a full pass, for every cell), and every
/// decided type is consistent with its decision-time neighbors.
pub open spec fn pass_consistent(
    cs: Seq<CreationRequest>,
    cfg: StreamConfig,
    gated: bool,
) -> bool {
    let n = cfg.kare.bir_siradaki_kare_sayisi as int;
    exists|g: Seq<Option<TileType>>|
        {
            &&& g.len() == n * n
            &&& #[trigger] grid_selection_consistent(g, n, cfg)
            &&& requests_match_grid(cs, g, n)
            &&& (!gated ==> forall|x: int, z: int|
                0 <= x < n && 0 <= z < n ==> (#[trigger] grid_at(g, n, x, z)) is Some)
        }
}

/// Everything the creation requests of one pass satisfy, relative to the
/// observer, the configuration, the registry contents `reg0` and the next
/// free handle `h0` the pass started from.
pub open spec fn pass_output_ok(
    cs: Seq<CreationRequest>,
    obs: WorldPos,
    cfg: StreamConfig,
    reg0: Seq<Tile>,
    h0: int,
    gated: bool,
) -> bool {
    let n = cfg.kare.bir_siradaki_kare_sayisi as int;
    &&& forall|k: int| 0 <= k < cs.len() ==> request_wf(#[trigger] cs[k], obs, cfg, reg0, gated)
    &&& forall|k: int| 0 <= k < cs.len() ==> (#[trigger] cs[k]).handle == h0 + k
    &&& forall|k1: int, k2: int|
        0 <= k1 < k2 < cs.len() ==> scanned_before(
            (#[trigger] cs[k1]).coordinate.x as int,
            cs[k1].coordinate.z as int,
            (#[trigger] cs[k2]).coordinate.x as int,
            cs[k2].coordinate.z as int,
        )
    &&& forall|x: int, z: int|
        0 <= x < n && 0 <= z < n && cell_eligible(x, z, obs, cfg, reg0, gated)
            ==> creates_cell(cs, x, z)
    &&& pass_consistent(cs, cfg, gated)
}

/// Whether the observer is close enough to keep `t` materialized: its
/// distance does not exceed the eviction radius.
pub open spec fn keep_tile(t: Tile, obs: WorldPos, cfg: StreamConfig) -> bool {
    spec_within_radius(
        spec_dist_sq_to_ground(obs, t.world_position.x as int, t.world_position.z as int),
        cfg.eviction_radius_num as int,
        cfg.eviction_radius_den as int,
        cfg.kare.spec_extent(),
    )
}

/// Whether removal request `r` names the handle of some tile of `s` that
/// lies beyond the eviction radius.
pub open spec fn removal_witnessed(
    r: RemovalRequest,
    s: Seq<Tile>,
    obs: WorldPos,
    cfg: StreamConfig,
) -> bool {
    exists|j: int|
        0 <= j < s.len() && r.handle == (#[trigger] s[j]).external_handle && !keep_tile(
            s[j],
            obs,
            cfg,
        )
}

/// Whether some removal request of `rs` carries handle `h`.
pub open spec fn handle_removed(h: u64, rs: Seq<RemovalRequest>) -> bool {
    exists|k: int| 0 <= k < rs.len() && (#[trigger] rs[k]).handle == h
}

/// Local consistency of a whole pass: for every decided cell of a
/// consistent scratch grid, if its selection was not a contradiction
/// fallback, the decided type is permitted beside each neighbor that was
/// already decided when the cell was selected (its west and north
/// neighbors, in scan order).
pub proof fn lemma_pass_local_consistency(
    g: Seq<Option<TileType>>,
    n: int,
    cfg: StreamConfig,
    x: int,
    z: int,
    i: int,
)
    requires
        grid_selection_consistent(g, n, cfg),
        0 <= x < n,
        0 <= z < n,
        grid_at(g, n, x, z) is Some,
        !crate::selector::no_candidate(cfg.rules, pass_neighbors(g, n, x, z)),
        0 <= i < 4,
        pass_neighbors(g, n, x, z)[i] is Some,
    ensures
        cfg.rules.spec_allows(pass_neighbors(g, n, x, z)[i]->0, grid_at(g, n, x, z)->0),
{
    crate::selector::lemma_candidate_locally_consistent(
        cfg.rules,
        pass_neighbors(g, n, x, z),
        grid_at(g, n, x, z)->0,
        i,
    );
}

/// The same, unconditionally, for a rule set with a universally tolerated
/// type: no cell of such a pass is ever a fallback, so every decided cell
/// is consistent with its decision-time neighbors.
pub proof fn lemma_pass_local_consistency_total(
    g: Seq<Option<TileType>>,
    n: int,
    cfg: StreamConfig,
    u: TileType,
    x: int,
    z: int,
    i: int,
)
    requires
        grid_selection_consistent(g, n, cfg),
        forall|t: TileType| cfg.rules.spec_allows(t, u),
        0 <= x < n,
        0 <= z < n,
        grid_at(g, n, x, z) is Some,
        0 <= i < 4,
        pass_neighbors(g, n, x, z)[i] is Some,
    ensures
        cfg.rules.spec_allows(pass_neighbors(g, n, x, z)[i]->0, grid_at(g, n, x, z)->0),
{
    crate::selector::lemma_universal_type_no_contradiction(
        cfg.rules,
        pass_neighbors(g, n, x, z),
        u,
    );
    lemma_pass_local_consistency(g, n, cfg, x, z, i);
}

/// With a rule table that tolerates some type universally but never a tree
/// beside a tree — as the stock table does — no two cells adjacent in scan
/// order are both decided as trees.
pub proof fn lemma_no_adjacent_trees(
    g: Seq<Option<TileType>>,
    n: int,
    cfg: StreamConfig,
    u: TileType,
    x: int,
    z: int,
)
    requires
        grid_selection_consistent(g, n, cfg),
        forall|t: TileType| cfg.rules.spec_allows(t, u),
        !cfg.rules.spec_allows(TileType::Tree, TileType::Tree),
        0 <= x < n,
        0 <= z < n,
        grid_at(g, n, x, z) == Some(TileType::Tree),
    ensures
        x > 0 ==> grid_at(g, n, x - 1, z) != Some(TileType::Tree),
        z > 0 ==> grid_at(g, n, x, z - 1) != Some(TileType::Tree),
{
    if x > 0 && grid_at(g, n, x - 1, z) == Some(TileType::Tree) {
        lemma_pass_local_consistency_total(g, n, cfg, u, x, z, 0);
    }
    if z > 0 && grid_at(g, n, x, z - 1) == Some(TileType::Tree) {
        lemma_pass_local_consistency_total(g, n, cfg, u, x, z, 1);
    }
}

/// A removal witnessed in a prefix of `s` is witnessed in the next longer
/// prefix as well.
proof fn lemma_removal_witness_extend(
    r: RemovalRequest,
    s: Seq<Tile>,
    i: int,
    obs: WorldPos,
    cfg: StreamConfig,
)
    requires
        0 <= i < s.len(),
        removal_witnessed(r, s.take(i), obs, cfg),
    ensures
        removal_witnessed(r, s.take(i + 1), obs, cfg),
{
    let j = choose|j: int|
        0 <= j < s.take(i).len() && r.handle == (#[trigger] s.take(i)[j]).external_handle
            && !keep_tile(s.take(i)[j], obs, cfg);
    assert(s.take(i + 1)[j] == s.take(i)[j]);
}

/// Every tile of `s` stands at ground level within the position bound.
pub open spec fn tiles_bounded(s: Seq<Tile>) -> bool {
    forall|i: int|
        0 <= i < s.len() ==> (#[trigger] s[i]).world_position.tile_bounded()
            && s[i].world_position.y == 0
}

/// Every handle of `s` was allocated below `next`, and no two tiles share
/// one: a removal request can name its tile unambiguously.
pub open spec fn handles_ok(s: Seq<Tile>, next: int) -> bool {
    &&& forall|i: int| 0 <= i < s.len() ==> (#[trigger] s[i]).external_handle < next
    &&& forall|i: int, j: int|
        0 <= i < j < s.len() ==> (#[trigger] s[i]).external_handle != (
        #[trigger] s[j]).external_handle
}

/// The fixed facts of one generation pass: an untouched configuration and
/// timestamps, a bounded observer, room for a window of handles, and a
/// well-formed starting registry.
spec fn pass_base_inv(
    m: StreamingWindowManager,
    cfg: StreamConfig,
    reg0: Seq<Tile>,
    h0: u64,
    lg0: u64,
    le0: u64,
    obs: WorldPos,
) -> bool {
    let n = cfg.kare.bir_siradaki_kare_sayisi as int;
    &&& m.config == cfg
    &&& m.last_generation == lg0
    &&& m.last_eviction == le0
    &&& cfg.valid()
    &&& obs.bounded()
    &&& h0 + n * n <= u64::MAX
    &&& distinct_cells(reg0)
    &&& tiles_bounded(reg0)
    &&& handles_ok(reg0, h0 as int)
}

/// The scratch grid at cursor `(cx, cz)` of a pass: exactly the scanned
/// cells that the pass keeps in range are decided, each consistently with
/// its decision-time neighbors.
spec fn pass_grid_inv(
    cfg: StreamConfig,
    obs: WorldPos,
    gated: bool,
    grid: Seq<Option<TileType>>,
    cx: int,
    cz: int,
) -> bool {
    let n = cfg.kare.bir_siradaki_kare_sayisi as int;
    &&& grid.len() == n * n
    &&& forall|a: int, b: int|
        0 <= a < n && 0 <= b < n && scanned_before(a, b, cx, cz) ==> ((#[trigger] grid_at(
            grid,
            n,
            a,
            b,
        )) is Some == (!gated || cell_in_range(a, b, obs, cfg)))
    &&& forall|a: int, b: int|
        0 <= a < n && 0 <= b < n && !scanned_before(a, b, cx, cz) ==> (#[trigger] grid_at(
            grid,
            n,
            a,
            b,
        )) is None
    &&& grid_selection_consistent(grid, n, cfg)
}

/// The requests and the registry at cursor `(cx, cz)` of a pass: the
/// requests cover exactly the scanned eligible cells, in scan order, typed
/// as the grid decided, with handles counted up from `h0`; and the
/// registry holds what it started with plus exactly the requested tiles.
spec fn pass_req_inv(
    m: StreamingWindowManager,
    cfg: StreamConfig,
    reg0: Seq<Tile>,
    h0: u64,
    obs: WorldPos,
    gated: bool,
    grid: Seq<Option<TileType>>,
    cs: Seq<CreationRequest>,
    cx: int,
    cz: int,
) -> bool {
    let n = cfg.kare.bir_siradaki_kare_sayisi as int;
    &&& forall|k: int| 0 <= k < cs.len() ==> request_wf(#[trigger] cs[k], obs, cfg, reg0, gated)
    &&& forall|k: int| 0 <= k < cs.len() ==> (#[trigger] cs[k]).handle == h0 + k
    &&& forall|k: int|
        0 <= k < cs.len() ==> scanned_before(
            (#[trigger] cs[k]).coordinate.x as int,
            cs[k].coordinate.z as int,
            cx,
            cz,
        )
    &&& forall|k: int|
        0 <= k < cs.len() ==> grid_at(
            grid,
            n,
            (#[trigger] cs[k]).coordinate.x as int,
            cs[k].coordinate.z as int,
        ) == Some(cs[k].tile_type)
    &&& forall|k1: int, k2: int|
        0 <= k1 < k2 < cs.len() ==> scanned_before(
            (#[trigger] cs[k1]).coordinate.x as int,
            cs[k1].coordinate.z as int,
            (#[trigger] cs[k2]).coordinate.x as int,
            cs[k2].coordinate.z as int,
        )
    &&& forall|a: int, b: int|
        0 <= a < n && 0 <= b < n && scanned_before(a, b, cx, cz) && cell_eligible(
            a,
            b,
            obs,
            cfg,
            reg0,
            gated,
        ) ==> creates_cell(cs, a, b)
    &&& m.registry@ == reg0 + cs.map_values(|c: CreationRequest| tile_of_request(c))
    &&& m.next_handle == h0 + cs.len()
    &&& cs.len() <= cx * n + cz
    &&& ((!gated && reg0.len() == 0) ==> cs.len() == cx * n + cz)
    &&& distinct_cells(m.registry@)
    &&& tiles_bounded(m.registry@)
    &&& handles_ok(m.registry@, m.next_handle as int)
}

/// Everything that holds at cursor `(cx, cz)` of a generation pass.
spec fn pass_inv(
    m: StreamingWindowManager,
    cfg: StreamConfig,
    reg0: Seq<Tile>,
    h0: u64,
    lg0: u64,
    le0: u64,
    obs: WorldPos,
    gated: bool,
    grid: Seq<Option<TileType>>,
    cs: Seq<CreationRequest>,
    cx: int,
    cz: int,
) -> bool {
    &&& pass_base_inv(m, cfg, reg0, h0, lg0, le0, obs)
    &&& pass_grid_inv(cfg, obs, gated, grid, cx, cz)
    &&& pass_req_inv(m, cfg, reg0, h0, obs, gated, grid, cs, cx, cz)
}

/// Advancing the cursor past an undecided cell preserves the pass
/// invariant: a gated pass leaves an out-of-range cell undecided, uncreated
/// and ineligible.
proof fn lemma_pass_inv_skip_step(
    m: StreamingWindowManager,
    cfg: StreamConfig,
    reg0: Seq<Tile>,
    h0: u64,
    lg0: u64,
    le0: u64,
    obs: WorldPos,
    gated: bool,
    grid: Seq<Option<TileType>>,
    cs: Seq<CreationRequest>,
    x: int,
    z: int,
)
    requires
        pass_inv(m, cfg, reg0, h0, lg0, le0, obs, gated, grid, cs, x, z),
        0 <= x < cfg.kare.bir_siradaki_kare_sayisi,
        0 <= z < cfg.kare.bir_siradaki_kare_sayisi,
        grid_at(grid, cfg.kare.bir_siradaki_kare_sayisi as int, x, z) is None,
        gated,
        !cell_in_range(x, z, obs, cfg),
    ensures
        pass_inv(m, cfg, reg0, h0, lg0, le0, obs, gated, grid, cs, x, z + 1),
{
    let n = cfg.kare.bir_siradaki_kare_sayisi as int;
    assert forall|a: int, b: int|
        0 <= a < n && 0 <= b < n && scanned_before(a, b, x, z + 1) implies ((
    #[trigger] grid_at(grid, n, a, b)) is Some == (!gated || cell_in_range(
        a,
        b,
        obs,
        cfg,
    ))) by {
        if a == x && b == z {
        } else {
            assert(scanned_before(a, b, x, z));
        }
    }
    assert forall|a: int, b: int|
        0 <= a < n && 0 <= b < n && scanned_before(a, b, x, z + 1) && cell_eligible(
            a,
            b,
            obs,
            cfg,
            reg0,
            gated,
        ) implies creates_cell(cs, a, b) by {
        if a == x && b == z {
        } else {
            assert(scanned_before(a, b, x, z));
        }
    }
}

/// At the end of a row the cursor `(x, n)` describes the same scanned set
/// as `(x + 1, 0)`: the pass invariant carries over to the next row.
proof fn lemma_pass_inv_row_step(
    m: StreamingWindowManager,
    cfg: StreamConfig,
    reg0: Seq<Tile>,
    h0: u64,
    lg0: u64,
    le0: u64,
    obs: WorldPos,
    gated: bool,
    grid: Seq<Option<TileType>>,
    cs: Seq<CreationRequest>,
    x: int,
)
    requires
        pass_inv(
            m,
            cfg,
            reg0,
            h0,
            lg0,
            le0,
            obs,
            gated,
            grid,
            cs,
            x,
            cfg.kare.bir_siradaki_kare_sayisi as int,
        ),
        0 <= x < cfg.kare.bir_siradaki_kare_sayisi,
    ensures
        pass_inv(m, cfg, reg0, h0, lg0, le0, obs, gated, grid, cs, x + 1, 0),
{
    let n = cfg.kare.bir_siradaki_kare_sayisi as int;
    assert(x * n + n == (x + 1) * n) by (nonlinear_arith);
    assert forall|a: int, b: int|
        0 <= a < n && 0 <= b < n implies (scanned_before(a, b, x, n) == scanned_before(
        a,
        b,
        x + 1,
        0,
    )) by {}
    assert forall|a: int, b: int|
        0 <= a < n && 0 <= b < n && scanned_before(a, b, x + 1, 0) implies ((
    #[trigger] grid_at(grid, n, a, b)) is Some == (!gated || cell_in_range(
        a,
        b,
        obs,
        cfg,
    ))) by {
        assert(scanned_before(a, b, x, n));
    }
    assert forall|a: int, b: int|
        0 <= a < n && 0 <= b < n && !scanned_before(a, b, x + 1, 0) implies (
    #[trigger] grid_at(grid, n, a, b)) is None by {
        assert(!scanned_before(a, b, x, n));
    }
    assert forall|k: int| 0 <= k < cs.len() implies scanned_before(
        (#[trigger] cs[k]).coordinate.x as int,
        cs[k].coordinate.z as int,
        x + 1,
        0,
    ) by {
        assert(request_wf(cs[k], obs, cfg, reg0, gated));
        assert(scanned_before(cs[k].coordinate.x as int, cs[k].coordinate.z as int, x, n));
    }
    assert forall|a: int, b: int|
        0 <= a < n && 0 <= b < n && scanned_before(a, b, x + 1, 0) && cell_eligible(
            a,
            b,
            obs,
            cfg,
            reg0,
            gated,
        ) implies creates_cell(cs, a, b) by {
        assert(scanned_before(a, b, x, n));
    }
}

/// Recording a selected type at the cursor cell advances the scratch-grid
/// invariant by one cell: the write changes no other cell, so earlier
/// decisions and their decision-time neighbors stand, and the new cell is
/// decided consistently with its own.
proof fn lemma_grid_decide_step(
    cfg: StreamConfig,
    obs: WorldPos,
    gated: bool,
    grid0: Seq<Option<TileType>>,
    grid1: Seq<Option<TileType>>,
    nbrs: Seq<Option<TileType>>,
    tt: TileType,
    x: int,
    z: int,
)
    requires
        cfg.valid(),
        0 <= x < cfg.kare.bir_siradaki_kare_sayisi,
        0 <= z < cfg.kare.bir_siradaki_kare_sayisi,
        pass_grid_inv(cfg, obs, gated, grid0, x, z),
        grid1 == grid0.update(x * (cfg.kare.bir_siradaki_kare_sayisi as int) + z, Some(tt)),
        nbrs == pass_neighbors(grid0, cfg.kare.bir_siradaki_kare_sayisi as int, x, z),
        selection_ok(cfg.rules, nbrs, cfg.default_type, tt),
        !gated || cell_in_range(x, z, obs, cfg),
    ensures
        pass_grid_inv(cfg, obs, gated, grid1, x, z + 1),
        forall|a: int, b: int|
            0 <= a < cfg.kare.bir_siradaki_kare_sayisi && 0 <= b
                < cfg.kare.bir_siradaki_kare_sayisi && (a != x || b != z) ==> grid_at(
                grid1,
                cfg.kare.bir_siradaki_kare_sayisi as int,
                a,
                b,
            ) == grid_at(grid0, cfg.kare.bir_siradaki_kare_sayisi as int, a, b),
        grid_at(grid1, cfg.kare.bir_siradaki_kare_sayisi as int, x, z) == Some(tt),
        pass_neighbors(grid1, cfg.kare.bir_siradaki_kare_sayisi as int, x, z) == nbrs,
{
    let n = cfg.kare.bir_siradaki_kare_sayisi as int;
    lemma_grid_idx(x, z, n);
    assert forall|a: int, b: int|
        0 <= a < n && 0 <= b < n && (a != x || b != z) implies grid_at(grid1, n, a, b)
        == grid_at(grid0, n, a, b) by {
        lemma_grid_idx(a, b, n);
        if a * n + b == x * n + z {
            lemma_grid_idx_inj(a, b, x, z, n);
        }
    }
    assert(grid_at(grid1, n, x, z) == Some(tt));
    assert(pass_neighbors(grid1, n, x, z) =~= nbrs);
    assert forall|a: int, b: int|
        0 <= a < n && 0 <= b < n && (#[trigger] grid_at(grid1, n, a, b))
            is Some implies selection_ok(
        cfg.rules,
        pass_neighbors(grid1, n, a, b),
        cfg.default_type,
        grid_at(grid1, n, a, b)->0,
    ) by {
        if a == x && b == z {
        } else {
            assert(grid_at(grid0, n, a, b) is Some);
            assert(scanned_before(a, b, x, z));
            assert(pass_neighbors(grid1, n, a, b) =~= pass_neighbors(grid0, n, a, b));
            assert(selection_ok(
                cfg.rules,
                pass_neighbors(grid0, n, a, b),
                cfg.default_type,
                grid_at(grid0, n, a, b)->0,
            ));
        }
    }
    assert forall|a: int, b: int|
        0 <= a < n && 0 <= b < n && scanned_before(a, b, x, z + 1) implies ((
    #[trigger] grid_at(grid1, n, a, b)) is Some == (!gated || cell_in_range(
        a,
        b,
        obs,
        cfg,
    ))) by {
        if a == x && b == z {
            assert(grid_at(grid1, n, a, b) == Some(tt));
        } else {
            assert(scanned_before(a, b, x, z));
            assert(grid_at(grid1, n, a, b) == grid_at(grid0, n, a, b));
        }
    }
    assert forall|a: int, b: int|
        0 <= a < n && 0 <= b < n && !scanned_before(a, b, x, z + 1) implies (
    #[trigger] grid_at(grid1, n, a, b)) is None by {
        assert(!scanned_before(a, b, x, z));
        assert(grid_at(grid1, n, a, b) == grid_at(grid0, n, a, b));
    }
}

/// A fresh scratch grid: one undecided slot per window cell, row-major.
fn build_scratch(n: usize) -> (g: Vec<Option<TileType>>)
    requires
        n <= crate::mapper::MAX_EXTENT,
    ensures
        g@.len() == n * n,
        forall|i: int| 0 <= i < g@.len() ==> (#[trigger] g@[i]) is None,
{
    proof {
        lemma_mul_bounds_nonneg(
            n as int,
            n as int,
            crate::mapper::MAX_EXTENT as int,
            crate::mapper::MAX_EXTENT as int,
        );
    }
    let total = n * n;
    let mut g: Vec<Option<TileType>> = Vec::new();
    let mut i: usize = 0;
    while i < total
        invariant
            i <= total,
            g@.len() == i,
            forall|k: int| 0 <= k < g@.len() ==> (#[trigger] g@[k]) is None,
        decreases total - i,
    {
        g.push(None);
        i = i + 1;
    }
    g
}

/// The flat index of window cell `(x, z)` on a row-major grid of side `n`.
fn grid_idx_exec(x: usize, z: usize, n: usize) -> (i: usize)
    requires
        x < n,
        z < n,
        n <= crate::mapper::MAX_EXTENT,
    ensures
        i == x * n + z,
        i < n * n,
{
    proof {
        lemma_grid_idx(x as int, z as int, n as int);
        lemma_mul_bounds_nonneg(
            x as int,
            n as int,
            crate::mapper::MAX_EXTENT as int,
            crate::mapper::MAX_EXTENT as int,
        );
    }
    x * n + z
}

/// A flat row-major grid index stays within the grid.
proof fn lemma_grid_idx(x: int, z: int, n: int)
    by (nonlinear_arith)
    requires
        0 <= x < n,
        0 <= z < n,
    ensures
        0 <= x * n + z < n * n,
{
}

/// Distinct cells have distinct flat indices.
proof fn lemma_grid_idx_inj(x1: int, z1: int, x2: int, z2: int, n: int)
    by (nonlinear_arith)
    requires
        0 <= x1 < n,
        0 <= z1 < n,
        0 <= x2 < n,
        0 <= z2 < n,
        x1 * n + z1 == x2 * n + z2,
    ensures
        x1 == x2,
        z1 == z2,
{
}

/// A strictly larger cell index lands strictly further along the axis.
proof fn lemma_axis_strict_mono(x1: int, x2: int, t: int)
    by (nonlinear_arith)
    requires
        x1 < x2,
        t >= 1,
    ensures
        x1 * t < x2 * t,
{
}

/// Distinct window cells map to distinct world cells: the placement formula
/// is injective, so one pass can never stack two tiles.
pub proof fn lemma_cell_pos_injective(
    x1: int,
    z1: int,
    x2: int,
    z2: int,
    obs: WorldPos,
    kare: Kare,
)
    requires
        kare.valid(),
        !(x1 == x2 && z1 == z2),
    ensures
        cell_pos_x(x1, obs, kare) != cell_pos_x(x2, obs, kare) || cell_pos_z(z1, obs, kare)
            != cell_pos_z(z2, obs, kare),
{
    let t = kare.kare_kenar_uzunlugu as int;
    if x1 != x2 {
        if x1 < x2 {
            lemma_axis_strict_mono(x1, x2, t);
        } else {
            lemma_axis_strict_mono(x2, x1, t);
        }
    } else {
        if z1 < z2 {
            lemma_axis_strict_mono(z1, z2, t);
        } else {
            lemma_axis_strict_mono(z2, z1, t);
        }
    }
}

/// The streaming window manager. It owns the registry, the cooldown
/// timestamps, the handle counter and the injected random source; external
/// collaborators drive it through [`StreamingWindowManager::tick`].
pub struct StreamingWindowManager {
    config: StreamConfig,
    registry: TileRegistry,
    last_generation: u64,
    last_eviction: u64,
    next_handle: u64,
    rng: rand::rngs::StdRng,
}

impl StreamingWindowManager {
    /// The configuration the manager was constructed with.
    pub closed spec fn spec_config(self) -> StreamConfig {
        self.config
    }

    /// The currently materialized tiles, in insertion order.
    pub closed spec fn tiles(self) -> Seq<Tile> {
        self.registry@
    }

    /// When the last incremental generation pass ran.
    pub closed spec fn spec_last_generation(self) -> u64 {
        self.last_generation
    }

    /// When the last eviction sweep ran.
    pub closed spec fn spec_last_eviction(self) -> u64 {
        self.last_eviction
    }

    /// The next free representation handle.
    pub closed spec fn spec_next_handle(self) -> u64 {
        self.next_handle
    }

    /// The manager's invariant: a valid configuration, at most one tile per
    /// world cell, every tile placed at ground level within bounds, and
    /// unambiguous handles.
    pub open spec fn wf(self) -> bool {
        &&& self.spec_config().valid()
        &&& distinct_cells(self.tiles())
        &&& tiles_bounded(self.tiles())
        &&& handles_ok(self.tiles(), self.spec_next_handle() as int)
    }

    /// An incremental generation pass is due: the cooldown has elapsed since
    /// the last one.
    pub open spec fn generation_due(self, now: u64) -> bool {
        self.spec_last_generation() + self.spec_config().generation_cooldown <= now
    }

    /// An eviction sweep is due: the cooldown has elapsed since the last
    /// one.
    pub open spec fn eviction_due(self, now: u64) -> bool {
        self.spec_last_eviction() + self.spec_config().eviction_cooldown < now
    }

    /// Validates `config` once and builds an idle manager around it: an
    /// empty registry, both cooldowns expired relative to time zero, no
    /// handles allocated, and a random source seeded with `seed` so runs
    /// are reproducible. Each configuration fault is reported as the first
    /// failed check, so a faulty table never reaches the per-tile hot path.
    pub fn new(config: StreamConfig, seed: u64) -> (r: Result<Self, ConfigError>)
        ensures
            r is Ok <==> config.valid(),
            r is Ok ==> {
                let m = r->Ok_0;
                &&& m.wf()
                &&& m.spec_config() == config
                &&& m.tiles() == Seq::<Tile>::empty()
                &&& m.spec_last_generation() == 0
                &&& m.spec_last_eviction() == 0
                &&& m.spec_next_handle() == 0
            },
            r == Result::<Self, ConfigError>::Err(ConfigError::BadWindow) <==> !config.window_ok(),
            r == Result::<Self, ConfigError>::Err(ConfigError::BadFactors) <==> (
            config.window_ok() && !config.factors_in_range()),
            r == Result::<Self, ConfigError>::Err(ConfigError::NoHysteresis) <==> (
            config.window_ok() && config.factors_in_range() && !config.hysteresis_ok()),
            r == Result::<Self, ConfigError>::Err(ConfigError::IncompleteRules) <==> (
            config.window_ok() && config.factors_in_range() && config.hysteresis_ok()
                && !config.rules.is_complete()),
            r == Result::<Self, ConfigError>::Err(ConfigError::IncompleteAssets) <==> (
            config.window_ok() && config.factors_in_range() && config.hysteresis_ok()
                && config.rules.is_complete() && !config.assets.is_complete()),
    {
        let n = config.kare.bir_siradaki_kare_sayisi;
        let t = config.kare.kare_kenar_uzunlugu;
        if n < 1 || n > crate::mapper::MAX_EXTENT || t < 1 || t > crate::mapper::MAX_TILE {
            return Err(ConfigError::BadWindow);
        }
        let cn = config.creation_radius_num;
        let cd = config.creation_radius_den;
        let en = config.eviction_radius_num;
        let ed = config.eviction_radius_den;
        if cn < 1 || cn > MAX_FACTOR || cd < 1 || cd > MAX_FACTOR || en < 1 || en > MAX_FACTOR
            || ed < 1 || ed > MAX_FACTOR {
            return Err(ConfigError::BadFactors);
        }
        proof {
            crate::mapper::lemma_mul_bounds_nonneg(cn as int, ed as int, MAX_FACTOR as int, MAX_FACTOR as int);
            crate::mapper::lemma_mul_bounds_nonneg(en as int, cd as int, MAX_FACTOR as int, MAX_FACTOR as int);
        }
        if (cn as u64) * (ed as u64) >= (en as u64) * (cd as u64) {
            return Err(ConfigError::NoHysteresis);
        }
        if !config.rules.validate() {
            return Err(ConfigError::IncompleteRules);
        }
        if !config.assets.validate() {
            return Err(ConfigError::IncompleteAssets);
        }
        Ok(
            StreamingWindowManager {
                config,
                registry: TileRegistry::new(),
                last_generation: 0,
                last_eviction: 0,
                next_handle: 0,
                rng: rng_from_seed(seed),
            },
        )
    }

    /// One generation pass over the window in scan order (increasing x, and
    /// increasing z within a row). Each cell's type is selected from the
    /// neighbors decided earlier in this same pass; a tile is created — and
    /// a creation request emitted — for every cell whose world cell is
    /// still unoccupied, and, when `gated`, only within the creation
    /// radius. Out-of-range cells of a gated pass stay undecided and
    /// impose no constraint on their neighbors.
    fn generate_pass(&mut self, observer: &WorldPos, gated: bool) -> (cs: Vec<CreationRequest>)
        requires
            old(self).wf(),
            observer.bounded(),
            old(self).spec_next_handle() + old(self).spec_config().kare.spec_area()
                <= u64::MAX,
        ensures
            final(self).wf(),
            final(self).spec_config() == old(self).spec_config(),
            final(self).spec_last_generation() == old(self).spec_last_generation(),
            final(self).spec_last_eviction() == old(self).spec_last_eviction(),
            final(self).spec_next_handle() == old(self).spec_next_handle() + cs@.len(),
            final(self).tiles() == old(self).tiles() + cs@.map_values(
                |c: CreationRequest| tile_of_request(c),
            ),
            pass_output_ok(
                cs@,
                *observer,
                old(self).spec_config(),
                old(self).tiles(),
                old(self).spec_next_handle() as int,
                gated,
            ),
            (!gated && old(self).tiles().len() == 0) ==> cs@.len()
                == old(self).spec_config().kare.spec_area(),
    {
        let ghost cfg = self.config;
        let ghost reg0 = self.registry@;
        let ghost h0 = self.next_handle;
        let ghost lg0 = self.last_generation;
        let ghost le0 = self.last_eviction;
        let n = self.config.kare.bir_siradaki_kare_sayisi;
        let mut grid = build_scratch(n);
        let mut cs: Vec<CreationRequest> = Vec::new();
        proof {
            lemma_mul_bounds_nonneg(n as int, n as int, n as int, n as int);
            assert(self.registry@ =~= reg0 + cs@.map_values(
                |c: CreationRequest| tile_of_request(c),
            ));
            assert forall|a: int, b: int| 0 <= a < n && 0 <= b < n implies (
            #[trigger] grid_at(grid@, n as int, a, b)) is None by {
                lemma_grid_idx(a, b, n as int);
            }
            assert(pass_inv(
                *self,
                cfg,
                reg0,
                h0,
                lg0,
                le0,
                *observer,
                gated,
                grid@,
                cs@,
                0,
                0,
            ));
        }
        let mut x: usize = 0;
        while x < n
            invariant
                x <= n,
                n == cfg.kare.bir_siradaki_kare_sayisi,
                observer.bounded(),
                pass_inv(
                    *self,
                    cfg,
                    reg0,
                    h0,
                    lg0,
                    le0,
                    *observer,
                    gated,
                    grid@,
                    cs@,
                    x as int,
                    0,
                ),
            decreases n - x,
        {
            let mut z: usize = 0;
            while z < n
                invariant
                    x < n,
                    z <= n,
                    n == cfg.kare.bir_siradaki_kare_sayisi,
                    observer.bounded(),
                    pass_inv(
                        *self,
                        cfg,
                        reg0,
                        h0,
                        lg0,
                        le0,
                        *observer,
                        gated,
                        grid@,
                        cs@,
                        x as int,
                        z as int,
                    ),
                decreases n - z,
            {
                self.pass_cell(
                    observer,
                    gated,
                    x,
                    z,
                    &mut grid,
                    &mut cs,
                    Ghost(reg0),
                    Ghost(h0),
                    Ghost(lg0),
                    Ghost(le0),
                );
                z = z + 1;
            }
            proof {
                lemma_pass_inv_row_step(
                    *self,
                    cfg,
                    reg0,
                    h0,
                    lg0,
                    le0,
                    *observer,
                    gated,
                    grid@,
                    cs@,
                    x as int,
                );
            }
            x = x + 1;
        }
        proof {
            let nn = n as int;
            assert forall|a: int, b: int| 0 <= a < nn && 0 <= b < nn implies scanned_before(
                a,
                b,
                nn,
                0,
            ) by {}
            assert(pass_consistent(cs@, cfg, gated)) by {
                assert(grid@.len() == nn * nn);
                assert(grid_selection_consistent(grid@, nn, cfg));
                assert(requests_match_grid(cs@, grid@, nn));
                if !gated {
                    assert forall|a: int, b: int| 0 <= a < nn && 0 <= b < nn implies (
                    #[trigger] grid_at(grid@, nn, a, b)) is Some by {
                        assert(scanned_before(a, b, nn, 0));
                    }
                }
            }
            if !gated && reg0.len() == 0 {
                assert(cs@.len() == nn * nn);
            }
        }
        cs
    }

    /// Processes one window cell of a generation pass: reads the
    /// decision-time neighbors from the scratch grid, selects and records a
    /// type when the cell is to be decided, and creates the tile when the
    /// cell's world cell is still free.
    #[verifier::rlimit(100)]
    fn pass_cell(
        &mut self,
        observer: &WorldPos,
        gated: bool,
        x: usize,
        z: usize,
        grid: &mut Vec<Option<TileType>>,
        cs: &mut Vec<CreationRequest>,
        Ghost(reg0): Ghost<Seq<Tile>>,
        Ghost(h0): Ghost<u64>,
        Ghost(lg0): Ghost<u64>,
        Ghost(le0): Ghost<u64>,
    )
        requires
            x < old(self).config.kare.bir_siradaki_kare_sayisi,
            z < old(self).config.kare.bir_siradaki_kare_sayisi,
            observer.bounded(),
            pass_inv(
                *old(self),
                old(self).config,
                reg0,
                h0,
                lg0,
                le0,
                *observer,
                gated,
                old(grid)@,
                old(cs)@,
                x as int,
                z as int,
            ),
        ensures
            pass_inv(
                *final(self),
                old(self).config,
                reg0,
                h0,
                lg0,
                le0,
                *observer,
                gated,
                final(grid)@,
                final(cs)@,
                x as int,
                z as int + 1,
            ),
    {
        let ghost cfg = self.config;
        let ghost obsg = *observer;
        let n = self.config.kare.bir_siradaki_kare_sayisi;
        let t = self.config.kare.kare_kenar_uzunlugu;
        proof {
            lemma_grid_idx(x as int, z as int, n as int);
        }
        let west = if x > 0 {
            grid[grid_idx_exec(x - 1, z, n)]
        } else {
            None
        };
        let north = if z > 0 {
            grid[grid_idx_exec(x, z - 1, n)]
        } else {
            None
        };
        let east = if x + 1 < n {
            grid[grid_idx_exec(x + 1, z, n)]
        } else {
            None
        };
        let south = if z + 1 < n {
            grid[grid_idx_exec(x, z + 1, n)]
        } else {
            None
        };
        let mut neighbors: Vec<Option<TileType>> = Vec::new();
        neighbors.push(west);
        neighbors.push(north);
        neighbors.push(east);
        neighbors.push(south);
        proof {
            if x + 1 < n {
                assert(!scanned_before(x + 1, z as int, x as int, z as int));
                assert(grid_at(grid@, n as int, x + 1, z as int) is None);
            }
            if z + 1 < n {
                assert(!scanned_before(x as int, z + 1, x as int, z as int));
                assert(grid_at(grid@, n as int, x as int, z + 1) is None);
            }
            let pn = pass_neighbors(grid@, n as int, x as int, z as int);
            assert(pn[0] == west && pn[1] == north && pn[2] == east && pn[3] == south);
            assert(neighbors@ =~= pn);
        }
        let (wx, wz) = grid_to_world(x, z, t);
        let pos = calculate_tile_position(observer, wx, wz, &self.config.kare);
        let in_r = if gated {
            is_tile_in_range(
                observer,
                pos.x,
                pos.z,
                &self.config.kare,
                self.config.creation_radius_num,
                self.config.creation_radius_den,
            )
        } else {
            true
        };
        proof {
            assert(pos.x == cell_pos_x(x as int, obsg, cfg.kare));
            assert(pos.z == cell_pos_z(z as int, obsg, cfg.kare));
            assert(in_r == (!gated || cell_in_range(x as int, z as int, obsg, cfg)));
        }
        if !in_r {
            proof {
                assert(grid_at(grid@, n as int, x as int, z as int) is None);
                lemma_pass_inv_skip_step(
                    *self,
                    cfg,
                    reg0,
                    h0,
                    lg0,
                    le0,
                    obsg,
                    gated,
                    grid@,
                    cs@,
                    x as int,
                    z as int,
                );
            }
            return ;
        }
        let tt = wfc_select_tile(
            &self.config.rules,
            neighbors.as_slice(),
            &mut self.rng,
            self.config.default_type,
        );
        let ghost grid0 = grid@;
        let idx = grid_idx_exec(x, z, n);
        grid.set(idx, Some(tt));
        proof {
            assert(grid@ == grid0.update((x * n + z) as int, Some(tt)));
            lemma_grid_decide_step(
                cfg,
                obsg,
                gated,
                grid0,
                grid@,
                neighbors@,
                tt,
                x as int,
                z as int,
            );
            assert forall|k: int| 0 <= k < cs@.len() implies grid_at(
                grid@,
                n as int,
                (#[trigger] cs@[k]).coordinate.x as int,
                cs@[k].coordinate.z as int,
            ) == Some(cs@[k].tile_type) by {
                assert(scanned_before(
                    cs@[k].coordinate.x as int,
                    cs@[k].coordinate.z as int,
                    x as int,
                    z as int,
                ));
                assert(grid_at(
                    grid@,
                    n as int,
                    cs@[k].coordinate.x as int,
                    cs@[k].coordinate.z as int,
                ) == grid_at(
                    grid0,
                    n as int,
                    cs@[k].coordinate.x as int,
                    cs@[k].coordinate.z as int,
                ));
            }
        }
        let occupied = self.registry.contains(pos.x, pos.z);
        proof {
            assert(occupies(self.registry@, pos.x as int, pos.z as int) == occupies(
                reg0,
                pos.x as int,
                pos.z as int,
            )) by {
                let cur = self.registry@;
                let created = cs@.map_values(|c: CreationRequest| tile_of_request(c));
                if occupies(cur, pos.x as int, pos.z as int) && !occupies(
                    reg0,
                    pos.x as int,
                    pos.z as int,
                ) {
                    let ii = choose|ii: int|
                        0 <= ii < cur.len() && (#[trigger] cur[ii]).world_position.x == pos.x
                            && cur[ii].world_position.z == pos.z;
                    if ii < reg0.len() {
                        assert(cur[ii] == reg0[ii]);
                        assert(occupies(reg0, pos.x as int, pos.z as int));
                    } else {
                        let k = ii - reg0.len();
                        assert(cur[ii] == created[k]);
                        let c = cs@[k];
                        assert(created[k] == tile_of_request(c));
                        assert(scanned_before(
                            c.coordinate.x as int,
                            c.coordinate.z as int,
                            x as int,
                            z as int,
                        ));
                        lemma_cell_pos_injective(
                            c.coordinate.x as int,
                            c.coordinate.z as int,
                            x as int,
                            z as int,
                            obsg,
                            cfg.kare,
                        );
                    }
                }
                if occupies(reg0, pos.x as int, pos.z as int) {
                    let jj = choose|jj: int|
                        0 <= jj < reg0.len() && (#[trigger] reg0[jj]).world_position.x == pos.x
                            && reg0[jj].world_position.z == pos.z;
                    assert(cur[jj] == reg0[jj]);
                    assert(occupies(cur, pos.x as int, pos.z as int));
                }
            }
        }
        let ghost cs0 = cs@;
        if occupied {
            proof {
                assert(!cell_free(x as int, z as int, obsg, cfg, reg0));
                assert forall|a: int, b: int|
                    0 <= a < n && 0 <= b < n && scanned_before(a, b, x as int, z + 1)
                        && cell_eligible(a, b, obsg, cfg, reg0, gated) implies creates_cell(
                    cs@,
                    a,
                    b,
                ) by {
                    if a == x && b == z {
                    } else {
                        assert(scanned_before(a, b, x as int, z as int));
                    }
                }
            }
            return ;
        }
        let handle = self.next_handle;
        proof {
            lemma_grid_idx(x as int, z as int, n as int);
        }
        self.next_handle = self.next_handle + 1;
        let tile = Tile {
            coordinate: GridCoordinate { x, z },
            tile_type: tt,
            world_position: pos,
            external_handle: handle,
        };
        let inserted = self.registry.insert(tile);
        proof {
            assert(inserted);
        }
        let asset = match self.config.assets.asset_of(tt) {
            Some(s) => s.clone(),
            None => {
                proof {
                    assert(cfg.assets.has_asset(tt));
                }
                unreached()
            },
        };
        let req = CreationRequest {
            coordinate: GridCoordinate { x, z },
            world_position: pos,
            tile_type: tt,
            asset,
            block: Block { id: 1 },
            handle,
        };
        cs.push(req);
        proof {
            let created0 = cs0.map_values(|c: CreationRequest| tile_of_request(c));
            assert(cs@ == cs0.push(req));
            assert(cs@.map_values(|c: CreationRequest| tile_of_request(c)) =~= created0.push(
                tile_of_request(req),
            ));
            assert(tile_of_request(req) == tile);
            assert(self.registry@ =~= reg0 + cs@.map_values(
                |c: CreationRequest| tile_of_request(c),
            ));
            assert(request_wf(req, obsg, cfg, reg0, gated));
            assert forall|k: int| 0 <= k < cs@.len() implies request_wf(
                #[trigger] cs@[k],
                obsg,
                cfg,
                reg0,
                gated,
            ) by {
                if k < cs0.len() {
                    assert(cs@[k] == cs0[k]);
                }
            }
            assert forall|k: int| 0 <= k < cs@.len() implies (#[trigger] cs@[k]).handle == h0
                + k by {
                if k < cs0.len() {
                    assert(cs@[k] == cs0[k]);
                }
            }
            assert forall|k: int| 0 <= k < cs@.len() implies grid_at(
                grid@,
                n as int,
                (#[trigger] cs@[k]).coordinate.x as int,
                cs@[k].coordinate.z as int,
            ) == Some(cs@[k].tile_type) by {
                if k < cs0.len() {
                    assert(cs@[k] == cs0[k]);
                }
            }
            assert(creates_cell(cs@, x as int, z as int)) by {
                assert((#[trigger] cs@[cs0.len() as int]).coordinate.x == x);
            }
            assert forall|a: int, b: int|
                0 <= a < n && 0 <= b < n && scanned_before(a, b, x as int, z + 1)
                    && cell_eligible(a, b, obsg, cfg, reg0, gated) implies creates_cell(
                cs@,
                a,
                b,
            ) by {
                if a == x && b == z {
                } else {
                    assert(scanned_before(a, b, x as int, z as int));
                    assert(creates_cell(cs0, a, b));
                    let k = choose|k: int|
                        0 <= k < cs0.len() && (#[trigger] cs0[k]).coordinate.x == a
                            && cs0[k].coordinate.z == b;
                    assert(cs@[k] == cs0[k]);
                }
            }
            assert forall|k: int| 0 <= k < cs@.len() implies scanned_before(
                (#[trigger] cs@[k]).coordinate.x as int,
                cs@[k].coordinate.z as int,
                x as int,
                z + 1,
            ) by {
                if k < cs0.len() {
                    assert(cs@[k] == cs0[k]);
                    assert(scanned_before(
                        cs0[k].coordinate.x as int,
                        cs0[k].coordinate.z as int,
                        x as int,
                        z as int,
                    ));
                } else {
                    assert(cs@[k] == req);
                }
            }
            assert forall|k1: int, k2: int| 0 <= k1 < k2 < cs@.len() implies scanned_before(
                (#[trigger] cs@[k1]).coordinate.x as int,
                cs@[k1].coordinate.z as int,
                (#[trigger] cs@[k2]).coordinate.x as int,
                cs@[k2].coordinate.z as int,
            ) by {
                assert(cs@[k1] == cs0[k1]);
                if k2 < cs0.len() {
                    assert(cs@[k2] == cs0[k2]);
                } else {
                    assert(cs@[k2] == req);
                    assert(scanned_before(
                        cs0[k1].coordinate.x as int,
                        cs0[k1].coordinate.z as int,
                        x as int,
                        z as int,
                    ));
                }
            }
            let prev = old(self).registry@;
            assert(prev == reg0 + cs0.map_values(|c: CreationRequest| tile_of_request(c)));
            assert(self.registry@ == prev.push(tile));
            assert forall|i: int| 0 <= i < self.registry@.len() implies ((
            #[trigger] self.registry@[i]).external_handle < self.next_handle
                && self.registry@[i].world_position.tile_bounded()
                && self.registry@[i].world_position.y == 0) by {
                if i < prev.len() {
                    assert(self.registry@[i] == prev[i]);
                    assert(prev[i].external_handle < h0 + cs0.len());
                } else {
                    assert(self.registry@[i] == tile);
                }
            }
            assert forall|i: int, j: int| 0 <= i < j < self.registry@.len() implies (
            #[trigger] self.registry@[i]).external_handle != (
            #[trigger] self.registry@[j]).external_handle by {
                if j < prev.len() {
                    assert(self.registry@[i] == prev[i] && self.registry@[j] == prev[j]);
                } else {
                    assert(self.registry@[j] == tile);
                    assert(self.registry@[i] == prev[i]);
                    assert(prev[i].external_handle < h0 + cs0.len());
                }
            }
        }
    }

    /// One eviction sweep: scans the registry in order and removes every
    /// tile whose distance from the observer exceeds the eviction radius,
    /// emitting one removal request — carrying the tile's representation
    /// handle, exactly once — for each removed tile. Tiles within the
    /// radius stay, in order.
    #[verifier::rlimit(100)]
    fn evict_pass(&mut self, observer: &WorldPos) -> (rs: Vec<RemovalRequest>)
        requires
            old(self).wf(),
            observer.bounded(),
        ensures
            final(self).wf(),
            final(self).spec_config() == old(self).spec_config(),
            final(self).spec_last_generation() == old(self).spec_last_generation(),
            final(self).spec_last_eviction() == old(self).spec_last_eviction(),
            final(self).spec_next_handle() == old(self).spec_next_handle(),
            final(self).tiles() == old(self).tiles().filter(
                |t: Tile| keep_tile(t, *observer, old(self).spec_config()),
            ),
            rs@ == old(self).tiles().filter(
                |t: Tile| !keep_tile(t, *observer, old(self).spec_config()),
            ).map_values(|t: Tile| RemovalRequest { handle: t.external_handle }),
            forall|j: int|
                0 <= j < final(self).tiles().len() ==> keep_tile(
                    #[trigger] final(self).tiles()[j],
                    *observer,
                    old(self).spec_config(),
                ) && old(self).tiles().contains(final(self).tiles()[j]),
            forall|k1: int, k2: int|
                0 <= k1 < k2 < rs@.len() ==> (#[trigger] rs@[k1]).handle != (
                #[trigger] rs@[k2]).handle,
            forall|k: int|
                0 <= k < rs@.len() ==> removal_witnessed(
                    #[trigger] rs@[k],
                    old(self).tiles(),
                    *observer,
                    old(self).spec_config(),
                ),
            forall|j: int|
                0 <= j < old(self).tiles().len() ==> {
                    let t = #[trigger] old(self).tiles()[j];
                    if keep_tile(t, *observer, old(self).spec_config()) {
                        final(self).tiles().contains(t)
                    } else {
                        handle_removed(t.external_handle, rs@)
                    }
                },
            final(self).tiles().len() + rs@.len() == old(self).tiles().len(),
    {
        let ghost cfg = self.config;
        let ghost reg0 = self.registry@;
        let ghost obsg = *observer;
        let ghost keepf = |t: Tile| keep_tile(t, obsg, cfg);
        let ghost dropf = |t: Tile| !keep_tile(t, obsg, cfg);
        let ghost to_removal = |t: Tile| RemovalRequest { handle: t.external_handle };
        let ghost h0 = self.next_handle;
        let mut kept: Vec<Tile> = Vec::new();
        let mut rs: Vec<RemovalRequest> = Vec::new();
        let m = self.registry.len();
        proof {
            assert(reg0.take(0) =~= Seq::<Tile>::empty());
            vstd::seq::Seq::<Tile>::empty().lemma_filter_len(keepf);
            assert(reg0.take(0).filter(keepf) =~= Seq::<Tile>::empty());
            assert(reg0.take(0).filter(dropf) =~= Seq::<Tile>::empty());
            assert(rs@ =~= reg0.take(0).filter(dropf).map_values(to_removal));
        }
        let mut i: usize = 0;
        while i < m
            invariant
                i <= m,
                m == reg0.len(),
                self.registry@ == reg0,
                self.config == cfg,
                self.next_handle == h0,
                cfg.valid(),
                obsg == *observer,
                observer.bounded(),
                distinct_cells(reg0),
                tiles_bounded(reg0),
                handles_ok(reg0, h0 as int),
                keepf == (|t: Tile| keep_tile(t, obsg, cfg)),
                dropf == (|t: Tile| !keep_tile(t, obsg, cfg)),
                to_removal == (|t: Tile| RemovalRequest { handle: t.external_handle }),
                kept@ == reg0.take(i as int).filter(keepf),
                rs@ == reg0.take(i as int).filter(dropf).map_values(to_removal),
                forall|a: int|
                    0 <= a < kept@.len() ==> {
                        let t = #[trigger] kept@[a];
                        &&& reg0.take(i as int).contains(t)
                        &&& keep_tile(t, obsg, cfg)
                        &&& t.external_handle < h0
                        &&& t.world_position.tile_bounded()
                        &&& t.world_position.y == 0
                    },
                distinct_cells(kept@),
                forall|a: int, b: int|
                    0 <= a < b < kept@.len() ==> (#[trigger] kept@[a]).external_handle != (
                    #[trigger] kept@[b]).external_handle,
                forall|k: int|
                    0 <= k < rs@.len() ==> removal_witnessed(
                        #[trigger] rs@[k],
                        reg0.take(i as int),
                        obsg,
                        cfg,
                    ),
                forall|k1: int, k2: int|
                    0 <= k1 < k2 < rs@.len() ==> (#[trigger] rs@[k1]).handle != (
                    #[trigger] rs@[k2]).handle,
                forall|j: int|
                    0 <= j < i ==> {
                        let t = #[trigger] reg0[j];
                        if keep_tile(t, obsg, cfg) {
                            kept@.contains(t)
                        } else {
                            handle_removed(t.external_handle, rs@)
                        }
                    },
                kept@.len() + rs@.len() == i,
            decreases m - i,
        {
            let tl = self.registry.iterate()[i];
            proof {
                assert(tl == reg0[i as int]);
                assert(tl.world_position.tile_bounded() && tl.world_position.y == 0);
            }
            let within = is_tile_in_range(
                observer,
                tl.world_position.x,
                tl.world_position.z,
                &self.config.kare,
                self.config.eviction_radius_num,
                self.config.eviction_radius_den,
            );
            proof {
                assert(within == keep_tile(tl, obsg, cfg));
                assert(reg0.take(i + 1) =~= reg0.take(i as int).push(tl));
                reg0.take(i as int).lemma_filter_push(tl, keepf);
                reg0.take(i as int).lemma_filter_push(tl, dropf);
                assert forall|k: int|
                    0 <= k < rs@.len() implies removal_witnessed(
                    #[trigger] rs@[k],
                    reg0.take(i + 1),
                    obsg,
                    cfg,
                ) by {
                    lemma_removal_witness_extend(rs@[k], reg0, i as int, obsg, cfg);
                }
            }
            if within {
                proof {
                    assert forall|a: int| 0 <= a < kept@.len() implies (((
                    #[trigger] kept@[a]).world_position.x != tl.world_position.x
                        || kept@[a].world_position.z != tl.world_position.z)
                        && kept@[a].external_handle != tl.external_handle) by {
                        assert(reg0.take(i as int).contains(kept@[a]));
                        let j = choose|j: int|
                            0 <= j < reg0.take(i as int).len() && reg0.take(i as int)[j]
                                == kept@[a];
                        assert(reg0[j] == kept@[a]);
                        assert(distinct_cells(reg0));
                        assert(handles_ok(reg0, h0 as int));
                    }
                }
                let ghost kept0 = kept@;
                kept.push(tl);
                proof {
                    assert(kept@ == kept0.push(tl));
                    assert(kept@ =~= reg0.take(i + 1).filter(keepf));
                    assert forall|a: int| 0 <= a < kept@.len() implies reg0.take(
                        i + 1,
                    ).contains(#[trigger] kept@[a]) by {
                        if a < kept0.len() {
                            assert(kept@[a] == kept0[a]);
                            assert(reg0.take(i as int).contains(kept0[a]));
                            let j = choose|j: int|
                                0 <= j < reg0.take(i as int).len() && reg0.take(i as int)[j]
                                    == kept0[a];
                            assert(reg0.take(i + 1)[j] == kept0[a]);
                        } else {
                            assert(kept@[a] == tl);
                            assert(reg0.take(i + 1)[i as int] == tl);
                        }
                    }
                    assert forall|j: int| 0 <= j < i + 1 implies {
                        let t = #[trigger] reg0[j];
                        if keep_tile(t, obsg, cfg) {
                            kept@.contains(t)
                        } else {
                            handle_removed(t.external_handle, rs@)
                        }
                    } by {
                        if j < i {
                            if keep_tile(reg0[j], obsg, cfg) {
                                assert(kept0.contains(reg0[j]));
                                let a = choose|a: int|
                                    0 <= a < kept0.len() && kept0[a] == reg0[j];
                                assert(kept@[a] == reg0[j]);
                            }
                        } else {
                            assert(kept@[kept0.len() as int] == tl);
                        }
                    }
                }
            } else {
                let ghost rs0 = rs@;
                rs.push(RemovalRequest { handle: tl.external_handle });
                proof {
                    assert(rs@ == rs0.push(RemovalRequest { handle: tl.external_handle }));
                    assert(rs@ =~= reg0.take(i + 1).filter(dropf).map_values(to_removal));
                    assert forall|k: int|
                        0 <= k < rs@.len() implies removal_witnessed(
                        #[trigger] rs@[k],
                        reg0.take(i + 1),
                        obsg,
                        cfg,
                    ) by {
                        if k < rs0.len() {
                            assert(rs@[k] == rs0[k]);
                            assert(removal_witnessed(rs0[k], reg0.take(i + 1), obsg, cfg));
                        } else {
                            assert(rs@[k].handle == tl.external_handle);
                            assert(reg0.take(i + 1)[i as int] == tl);
                            assert(!keep_tile(tl, obsg, cfg));
                        }
                    }
                    assert forall|k1: int, k2: int| 0 <= k1 < k2 < rs@.len() implies (
                    #[trigger] rs@[k1]).handle != (#[trigger] rs@[k2]).handle by {
                        if k2 < rs0.len() {
                            assert(rs@[k1] == rs0[k1] && rs@[k2] == rs0[k2]);
                        } else {
                            assert(rs@[k1] == rs0[k1]);
                            assert(removal_witnessed(rs0[k1], reg0.take(i as int), obsg, cfg));
                            let j = choose|j: int|
                                0 <= j < reg0.take(i as int).len() && rs0[k1].handle == (
                                #[trigger] reg0.take(i as int)[j]).external_handle
                                    && !keep_tile(reg0.take(i as int)[j], obsg, cfg);
                            assert(reg0.take(i as int)[j] == reg0[j]);
                            assert(handles_ok(reg0, h0 as int));
                            assert(reg0[j].external_handle != reg0[i as int].external_handle);
                        }
                    }
                    assert forall|j: int| 0 <= j < i + 1 implies {
                        let t = #[trigger] reg0[j];
                        if keep_tile(t, obsg, cfg) {
                            kept@.contains(t)
                        } else {
                            handle_removed(t.external_handle, rs@)
                        }
                    } by {
                        if j < i {
                            if !keep_tile(reg0[j], obsg, cfg) {
                                assert(handle_removed(reg0[j].external_handle, rs0));
                                let k = choose|k: int|
                                    0 <= k < rs0.len() && (#[trigger] rs0[k]).handle
                                        == reg0[j].external_handle;
                                assert(rs@[k] == rs0[k]);
                            }
                        } else {
                            assert(rs@[rs0.len() as int].handle == tl.external_handle);
                        }
                    }
                }
            }
            i = i + 1;
        }
        proof {
            assert(reg0.take(m as int) =~= reg0);
        }
        self.registry = TileRegistry::from_vec(kept);
        proof {
            assert forall|a: int| 0 <= a < self.registry@.len() implies ((
            #[trigger] self.registry@[a]).external_handle < h0
                && self.registry@[a].world_position.tile_bounded()
                && self.registry@[a].world_position.y == 0) by {}
            assert forall|j: int| 0 <= j < self.registry@.len() implies keep_tile(
                #[trigger] self.registry@[j],
                obsg,
                cfg,
            ) && reg0.contains(self.registry@[j]) by {
                assert(reg0.take(m as int).contains(self.registry@[j]));
            }
        }
        rs
    }

    /// One scheduling step, driven by the external collaborator with the
    /// observer's position (or `None` while no observer exists — then the
    /// whole tick is a no-op, retried next tick), the monotonic elapsed
    /// time `now`, and the observer's movement-intent signal.
    ///
    /// Creation runs before eviction. An empty registry is bootstrapped:
    /// the full window is generated around the observer at once. Otherwise,
    /// on movement intent and once the generation cooldown has elapsed, the
    /// window re-anchors to the observer and only still-absent cells within
    /// the creation radius are created. Then, once the eviction cooldown
    /// has elapsed, every tile whose distance exceeds the eviction radius
    /// is removed. The output holds one creation request per tile created
    /// this tick and one removal request — carrying the tile's handle,
    /// exactly once — per tile removed; a tile created within the creation
    /// radius is never removed in the same tick.
    #[verifier::rlimit(100)]
    pub fn tick(&mut self, observer: Option<WorldPos>, now: u64, movement_intent: bool) -> (
        out: TickOutput)
        requires
            old(self).wf(),
            observer matches Some(o) ==> o.bounded(),
            old(self).spec_next_handle() + old(self).spec_config().kare.spec_area()
                <= u64::MAX,
        ensures
            final(self).wf(),
            final(self).spec_config() == old(self).spec_config(),
            observer is None ==> *final(self) == *old(self) && out.creations@.len() == 0
                && out.removals@.len() == 0,
            observer matches Some(obs) ==> {
                let cfg = old(self).spec_config();
                let reg0 = old(self).tiles();
                let boot = reg0.len() == 0;
                let gen = !boot && movement_intent && old(self).generation_due(now);
                let evict = old(self).eviction_due(now);
                let mid = reg0 + out.creations@.map_values(
                    |c: CreationRequest| tile_of_request(c),
                );
                &&& (boot ==> pass_output_ok(
                    out.creations@,
                    obs,
                    cfg,
                    reg0,
                    old(self).spec_next_handle() as int,
                    false,
                ) && out.creations@.len() == cfg.kare.spec_area())
                &&& (gen ==> pass_output_ok(
                    out.creations@,
                    obs,
                    cfg,
                    reg0,
                    old(self).spec_next_handle() as int,
                    true,
                ))
                &&& (!boot && !gen ==> out.creations@.len() == 0)
                &&& final(self).spec_next_handle() == old(self).spec_next_handle()
                    + out.creations@.len()
                &&& final(self).spec_last_generation() == (if gen {
                    now
                } else {
                    old(self).spec_last_generation()
                })
                &&& final(self).spec_last_eviction() == (if evict {
                    now
                } else {
                    old(self).spec_last_eviction()
                })
                &&& (evict ==> {
                    &&& final(self).tiles() == mid.filter(
                        |t: Tile| keep_tile(t, obs, cfg),
                    )
                    &&& out.removals@ == mid.filter(|t: Tile| !keep_tile(t, obs, cfg)).map_values(
                        |t: Tile| RemovalRequest { handle: t.external_handle },
                    )
                    &&& forall|j: int|
                        0 <= j < final(self).tiles().len() ==> keep_tile(
                            #[trigger] final(self).tiles()[j],
                            obs,
                            cfg,
                        )
                    &&& forall|k: int|
                        0 <= k < out.removals@.len() ==> removal_witnessed(
                            #[trigger] out.removals@[k],
                            mid,
                            obs,
                            cfg,
                        )
                    &&& forall|k1: int, k2: int|
                        0 <= k1 < k2 < out.removals@.len() ==> (
                        #[trigger] out.removals@[k1]).handle != (
                        #[trigger] out.removals@[k2]).handle
                })
                &&& (!evict ==> final(self).tiles() == mid && out.removals@.len() == 0)
                &&& forall|k: int|
                    0 <= k < out.creations@.len() && cell_in_range(
                        (#[trigger] out.creations@[k]).coordinate.x as int,
                        out.creations@[k].coordinate.z as int,
                        obs,
                        cfg,
                    ) ==> !handle_removed(out.creations@[k].handle, out.removals@)
            },
            (observer is Some && old(self).tiles().len() > 0 && !(movement_intent && old(
                self,
            ).generation_due(now)) && !old(self).eviction_due(now)) ==> (*final(self) == *old(
                self,
            ) && out.creations@.len() == 0 && out.removals@.len() == 0),
    {
        let obs_pos = match observer {
            Some(o) => o,
            None => {
                return TickOutput { creations: Vec::new(), removals: Vec::new() };
            },
        };
        let ghost cfg = self.config;
        let ghost reg0 = self.registry@;
        let boot = self.registry.is_empty();
        let gen_due = now >= self.last_generation && now - self.last_generation
            >= self.config.generation_cooldown;
        proof {
            assert(gen_due == old(self).generation_due(now));
        }
        let mut creations: Vec<CreationRequest> = Vec::new();
        if boot {
            creations = self.generate_pass(&obs_pos, false);
        } else if movement_intent && gen_due {
            self.last_generation = now;
            creations = self.generate_pass(&obs_pos, true);
        }
        proof {
            if !boot && !(movement_intent && gen_due) {
                assert(creations@.map_values(|c: CreationRequest| tile_of_request(c))
                    =~= Seq::<Tile>::empty());
                assert(self.registry@ =~= reg0 + creations@.map_values(
                    |c: CreationRequest| tile_of_request(c),
                ));
            }
        }
        let ghost mid = self.registry@;
        let ghost mid_next = self.next_handle;
        let evict_due = now > self.last_eviction && now - self.last_eviction
            > self.config.eviction_cooldown;
        proof {
            assert(evict_due == old(self).eviction_due(now));
        }
        let mut removals: Vec<RemovalRequest> = Vec::new();
        if evict_due {
            self.last_eviction = now;
            removals = self.evict_pass(&obs_pos);
        }
        proof {
            assert forall|k: int|
                0 <= k < creations@.len() && cell_in_range(
                    (#[trigger] creations@[k]).coordinate.x as int,
                    creations@[k].coordinate.z as int,
                    obs_pos,
                    cfg,
                ) implies !handle_removed(creations@[k].handle, removals@) by {
                let c = creations@[k];
                let d2 = spec_dist_sq_to_ground(
                    obs_pos,
                    c.world_position.x as int,
                    c.world_position.z as int,
                );
                crate::mapper::lemma_dist_sq_nonneg(
                    obs_pos,
                    c.world_position.x as int,
                    c.world_position.z as int,
                );
                lemma_mul_bounds_nonneg(
                    cfg.kare.bir_siradaki_kare_sayisi as int,
                    cfg.kare.kare_kenar_uzunlugu as int,
                    crate::mapper::MAX_EXTENT as int,
                    crate::mapper::MAX_TILE as int,
                );
                if boot {
                    assert(request_wf(c, obs_pos, cfg, reg0, false));
                } else {
                    assert(request_wf(c, obs_pos, cfg, reg0, true));
                }
                assert(c.world_position.x == cell_pos_x(
                    c.coordinate.x as int,
                    obs_pos,
                    cfg.kare,
                ));
                assert(c.world_position.z == cell_pos_z(
                    c.coordinate.z as int,
                    obs_pos,
                    cfg.kare,
                ));
                crate::mapper::lemma_hysteresis(
                    d2,
                    cfg.creation_radius_num as int,
                    cfg.creation_radius_den as int,
                    cfg.eviction_radius_num as int,
                    cfg.eviction_radius_den as int,
                    cfg.kare.spec_extent(),
                );
                assert(keep_tile(tile_of_request(c), obs_pos, cfg));
                assert(mid[reg0.len() + k] == tile_of_request(c));
                if handle_removed(c.handle, removals@) {
                    let k2 = choose|k2: int|
                        0 <= k2 < removals@.len() && removals@[k2].handle == c.handle;
                    assert(removal_witnessed(removals@[k2], mid, obs_pos, cfg));
                    let j = choose|j: int|
                        0 <= j < mid.len() && removals@[k2].handle
                            == mid[j].external_handle && !keep_tile(mid[j], obs_pos, cfg);
                    assert(handles_ok(mid, mid_next as int));
                    assert(mid[j] == tile_of_request(c));
                    assert(false);
                }
            }
        }
        TickOutput { creations, removals }
    }

    /// The materialized tiles, for inspection.
    pub fn registry(&self) -> (r: &TileRegistry)
        ensures
            r@ == self.tiles(),
    {
        &self.registry
    }

    /// How many tiles are materialized.
    pub fn tile_count(&self) -> (r: usize)
        ensures
            r == self.tiles().len(),
    {
        self.registry.len()
    }

    /// The next free representation handle; a driver can check how much
    /// handle headroom remains before a tick.
    pub fn next_handle(&self) -> (r: u64)
        ensures
            r == self.spec_next_handle(),
    {
        self.next_handle
    }

    /// The configuration, for inspection.
    pub fn config(&self) -> (r: &StreamConfig)
        ensures
            *r == self.spec_config(),
    {
        &self.config
    }
}

} // verus!
