//! The authoritative set of currently materialized tiles.
//!
//! Tiles are keyed by the world cell they stand on: the registry never holds
//! two tiles at the same world-space cell, and an insert at an occupied cell
//! is rejected rather than double-materializing. The streaming manager is
//! its only mutator.

use vstd::prelude::*;

use crate::tile::Tile;

verus! {

/// Whether `s` holds a tile standing at world cell `(x, z)`.
pub open spec fn occupies(s: Seq<Tile>, x: int, z: int) -> bool {
    exists|i: int|
        0 <= i < s.len() && (#[trigger] s[i]).world_position.x == x && s[i].world_position.z
            == z
}

/// No two tiles of `s` share a world cell.
pub open spec fn distinct_cells(s: Seq<Tile>) -> bool {
    forall|i: int, j: int|
        0 <= i < j < s.len() ==> ((#[trigger] s[i]).world_position.x != (
        #[trigger] s[j]).world_position.x || s[i].world_position.z != s[j].world_position.z)
}

/// The registry of materialized tiles.
pub struct TileRegistry {
    tiles: Vec<Tile>,
}

impl View for TileRegistry {
    type V = Seq<Tile>;

    closed spec fn view(&self) -> Seq<Tile> {
        self.tiles@
    }
}

impl TileRegistry {
    /// The registry's invariant: at most one tile per world cell.
    pub open spec fn wf(self) -> bool {
        distinct_cells(self@)
    }

    /// An empty registry.
    pub fn new() -> (r: Self)
        ensures
            r@ == Seq::<Tile>::empty(),
            r.wf(),
    {
        let r = TileRegistry { tiles: Vec::new() };
        proof {
            assert(r@ =~= Seq::<Tile>::empty());
        }
        r
    }

    /// Wraps a tile list already known to hold distinct cells.
    pub fn from_vec(tiles: Vec<Tile>) -> (r: Self)
        requires
            distinct_cells(tiles@),
        ensures
            r@ == tiles@,
            r.wf(),
    {
        TileRegistry { tiles }
    }

    /// How many tiles are materialized.
    pub fn len(&self) -> (r: usize)
        ensures
            r == self@.len(),
    {
        self.tiles.len()
    }

    /// Whether no tile is materialized.
    pub fn is_empty(&self) -> (r: bool)
        ensures
            r == (self@.len() == 0),
    {
        self.tiles.len() == 0
    }

    /// Whether a tile stands at world cell `(x, z)`.
    pub fn contains(&self, x: i64, z: i64) -> (r: bool)
        ensures
            r == occupies(self@, x as int, z as int),
    {
        let mut i: usize = 0;
        while i < self.tiles.len()
            invariant
                i <= self.tiles@.len(),
                forall|k: int|
                    0 <= k < i ==> !((#[trigger] self.tiles@[k]).world_position.x == x
                        && self.tiles@[k].world_position.z == z),
            decreases self.tiles@.len() - i,
        {
            let t = &self.tiles[i];
            if t.world_position.x == x && t.world_position.z == z {
                return true;
            }
            i = i + 1;
        }
        false
    }

    /// The materialized tiles, in insertion order.
    pub fn iterate(&self) -> (r: &Vec<Tile>)
        ensures
            r@ == self@,
    {
        &self.tiles
    }

    /// Registers `tile`, unless its world cell is already occupied: a
    /// duplicate is rejected as a no-op, preserving the one-tile-per-cell
    /// invariant.
    pub fn insert(&mut self, tile: Tile) -> (ok: bool)
        requires
            old(self).wf(),
        ensures
            final(self).wf(),
            ok == !occupies(
                old(self)@,
                tile.world_position.x as int,
                tile.world_position.z as int,
            ),
            final(self)@ == if ok {
                old(self)@.push(tile)
            } else {
                old(self)@
            },
    {
        if self.contains(tile.world_position.x, tile.world_position.z) {
            false
        } else {
            self.tiles.push(tile);
            proof {
                let s = old(self)@;
                assert forall|i: int, j: int| 0 <= i < j < self@.len() implies ((
                #[trigger] self@[i]).world_position.x != (#[trigger] self@[j]).world_position.x
                    || self@[i].world_position.z != self@[j].world_position.z) by {
                    if j < s.len() {
                        assert(self@[i] == s[i] && self@[j] == s[j]);
                    } else {
                        assert(self@[j] == tile);
                        assert(self@[i] == s[i]);
                        assert(!occupies(
                            s,
                            tile.world_position.x as int,
                            tile.world_position.z as int,
                        ));
                    }
                }
            }
            true
        }
    }

    /// Removes and returns the tile at world cell `(x, z)`, if one stands
    /// there; the other tiles stay, in order.
    pub fn remove(&mut self, x: i64, z: i64) -> (r: Option<Tile>)
        requires
            old(self).wf(),
        ensures
            final(self).wf(),
            match r {
                Some(t) => {
                    &&& occupies(old(self)@, x as int, z as int)
                    &&& old(self)@.contains(t)
                    &&& t.world_position.x == x
                    &&& t.world_position.z == z
                    &&& exists|i: int|
                        0 <= i < old(self)@.len() && old(self)@[i] == t && final(self)@
                            == old(self)@.remove(i)
                    &&& !occupies(final(self)@, x as int, z as int)
                },
                None => {
                    &&& !occupies(old(self)@, x as int, z as int)
                    &&& final(self)@ == old(self)@
                },
            },
    {
        let ghost s = self.tiles@;
        let mut i: usize = 0;
        while i < self.tiles.len()
            invariant
                i <= s.len(),
                self.tiles@ == s,
                s == old(self)@,
                distinct_cells(s),
                forall|k: int|
                    0 <= k < i ==> !((#[trigger] s[k]).world_position.x == x
                        && s[k].world_position.z == z),
            decreases s.len() - i,
        {
            let hit = {
                let t = &self.tiles[i];
                t.world_position.x == x && t.world_position.z == z
            };
            if hit {
                let t = self.tiles.remove(i);
                proof {
                    assert(self.tiles@ == s.remove(i as int));
                    s.remove_ensures(i as int);
                    assert forall|a: int, b: int| 0 <= a < b < self.tiles@.len() implies ((
                    #[trigger] self.tiles@[a]).world_position.x != (
                    #[trigger] self.tiles@[b]).world_position.x
                        || self.tiles@[a].world_position.z
                        != self.tiles@[b].world_position.z) by {
                        let a0: int = if a < i { a } else { a + 1 };
                        let b0: int = if b < i { b } else { b + 1 };
                        assert(self.tiles@[a] == s[a0] && self.tiles@[b] == s[b0]);
                    }
                    assert forall|k: int| 0 <= k < self.tiles@.len() implies !((
                    #[trigger] self.tiles@[k]).world_position.x == x
                        && self.tiles@[k].world_position.z == z) by {
                        let k0: int = if k < i { k } else { k + 1 };
                        assert(self.tiles@[k] == s[k0]);
                        if k0 > i {
                            assert(distinct_cells(s));
                            assert(s[i as int].world_position.x == x && s[i as int].world_position.z == z);
                        }
                    }
                    assert(s[i as int] == t);
                    assert(s.contains(t));
                    assert(occupies(s, x as int, z as int));
                    assert(0 <= i < s.len() && s[i as int] == t && self.tiles@ == s.remove(
                        i as int,
                    ));
                }
                return Some(t);
            }
            i = i + 1;
        }
        None
    }
}

} // verus!
