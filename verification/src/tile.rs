//! Core data: tile types, grid coordinates, world positions, tiles.

use vstd::prelude::*;

verus! {

/// Largest observer coordinate (in whole world units) the engine accepts on
/// any axis; keeps every distance computation within machine integers.
pub const POS_LIMIT: i64 = 0x100_0000_0000;

/// Bound that every tile position the engine produces stays within, on every
/// axis, given an observer within [`POS_LIMIT`].
pub const TILE_BOUND: i64 = 0x400_0000_0000;

/// The finite universe of tile kinds. Equality and hashing only; no ordering.
#[derive(Clone, Copy, PartialEq, Eq, Structural, Hash, Debug)]
pub enum TileType {
    Wall,
    Tree,
    Column,
    Ground,
}

/// A cell of the active window: a pair of non-negative indices, relative to
/// the window's own origin. Cell (0, 0) moves with the window: it is
/// re-anchored whenever the window is recomputed around the observer.
#[derive(Clone, Copy, PartialEq, Eq, Structural, Hash, Debug)]
pub struct GridCoordinate {
    pub x: usize,
    pub z: usize,
}

/// A position in world space, in whole world units.
#[derive(Clone, Copy, PartialEq, Eq, Structural, Hash, Debug)]
pub struct WorldPos {
    pub x: i64,
    pub y: i64,
    pub z: i64,
}

impl WorldPos {
    /// Every axis within the range the engine accepts for an observer.
    pub open spec fn bounded(self) -> bool {
        &&& -POS_LIMIT <= self.x <= POS_LIMIT
        &&& -POS_LIMIT <= self.y <= POS_LIMIT
        &&& -POS_LIMIT <= self.z <= POS_LIMIT
    }

    /// Every axis within the range tile positions stay in.
    pub open spec fn tile_bounded(self) -> bool {
        &&& -TILE_BOUND <= self.x <= TILE_BOUND
        &&& -TILE_BOUND <= self.y <= TILE_BOUND
        &&& -TILE_BOUND <= self.z <= TILE_BOUND
    }
}

/// The tag every created tile's external representation carries.
#[derive(Clone, Copy, PartialEq, Eq, Structural, Debug)]
pub struct Block {
    pub id: i32,
}

impl Default for Block {
    fn default() -> (r: Self)
        ensures
            r.id == 0,
    {
        Block { id: 0 }
    }
}

/// A materialized tile. Immutable once created: only its presence in the
/// registry ever changes.
#[derive(Clone, Copy, PartialEq, Eq, Structural, Debug)]
pub struct Tile {
    /// The window-relative cell the tile was created for.
    pub coordinate: GridCoordinate,
    /// The type selected for the tile at creation.
    pub tile_type: TileType,
    /// Where the tile stands in world space.
    pub world_position: WorldPos,
    /// Opaque handle of the externally created representation.
    pub external_handle: u64,
}

/// Every tile type, in a fixed order. The candidate set of a selection pass
/// starts from this universe.
pub fn tile_universe() -> (u: Vec<TileType>)
    ensures
        u@.len() == 4,
        u@[0] == TileType::Ground,
        u@[1] == TileType::Wall,
        u@[2] == TileType::Tree,
        u@[3] == TileType::Column,
        forall|t: TileType| u@.contains(t),
{
    let mut u: Vec<TileType> = Vec::new();
    u.push(TileType::Ground);
    u.push(TileType::Wall);
    u.push(TileType::Tree);
    u.push(TileType::Column);
    proof {
        assert forall|t: TileType| u@.contains(t) by {
            match t {
                TileType::Ground => assert(u@[0] == t),
                TileType::Wall => assert(u@[1] == t),
                TileType::Tree => assert(u@[2] == t),
                TileType::Column => assert(u@[3] == t),
            }
        }
    }
    u
}

} // verus!
