//! Static configuration tables: which tile types may stand next to which,
//! and which external asset represents each type.
//!
//! Both tables are association lists keyed by [`TileType`]; a later entry for
//! the same key shadows an earlier one, so appending an entry acts as an
//! insert-or-replace. A type without an entry is a configuration fault that
//! the engine detects once, at construction time.

use vstd::prelude::*;

use crate::tile::TileType;

verus! {

/// What a lookup in an association list keyed by `TileType` returns: the
/// value of the latest entry for the key, if any entry exists.
pub open spec fn assoc_lookup<V>(entries: Seq<(TileType, V)>, t: TileType) -> Option<V>
    decreases entries.len(),
{
    if entries.len() == 0 {
        None
    } else if entries.last().0 == t {
        Some(entries.last().1)
    } else {
        assoc_lookup(entries.drop_last(), t)
    }
}

/// The adjacency rule table: tile type -> the tile types permitted as its
/// neighbor. Not required to be symmetric.
pub struct WFCRules {
    allowed_neighbors: Vec<(TileType, Vec<TileType>)>,
}

impl WFCRules {
    /// The table as a mathematical association list over sequences.
    pub closed spec fn entries(self) -> Seq<(TileType, Seq<TileType>)> {
        self.allowed_neighbors@.map_values(|p: (TileType, Vec<TileType>)| (p.0, p.1@))
    }

    /// Whether `t` has an entry in the table.
    pub open spec fn has_rule(self, t: TileType) -> bool {
        assoc_lookup(self.entries(), t) is Some
    }

    /// The sequence of neighbor types permitted beside `t`.
    pub open spec fn allowed_seq(self, t: TileType) -> Seq<TileType>
        recommends
            self.has_rule(t),
    {
        assoc_lookup(self.entries(), t)->0
    }

    /// Whether the table permits `n` as a neighbor of `t`.
    pub open spec fn spec_allows(self, t: TileType, n: TileType) -> bool {
        self.has_rule(t) && self.allowed_seq(t).contains(n)
    }

    /// Every tile type has an entry; required of any table the engine runs on.
    pub open spec fn is_complete(self) -> bool {
        forall|t: TileType| self.has_rule(t)
    }

    /// An empty table; every lookup fails until rules are added.
    pub fn new() -> (r: Self)
        ensures
            r.entries() == Seq::<(TileType, Seq<TileType>)>::empty(),
            forall|t: TileType| !r.has_rule(t),
    {
        let r = WFCRules { allowed_neighbors: Vec::new() };
        proof {
            assert(r.entries() =~= Seq::<(TileType, Seq<TileType>)>::empty());
        }
        r
    }

    /// Adds (or replaces) the rule for `t`: `allowed` become the types
    /// permitted beside it.
    pub fn insert_rule(&mut self, t: TileType, allowed: Vec<TileType>)
        ensures
            final(self).entries() == old(self).entries().push((t, allowed@)),
            final(self).has_rule(t),
            final(self).allowed_seq(t) == allowed@,
            forall|u: TileType| u != t ==> #[trigger] assoc_lookup(final(self).entries(), u)
                == assoc_lookup(old(self).entries(), u),
    {
        self.allowed_neighbors.push((t, allowed));
        proof {
            assert(self.entries() =~= old(self).entries().push((t, allowed@)));
            assert(self.entries().drop_last() =~= old(self).entries());
        }
    }

    /// Looks `t` up: the permitted neighbors of `t`, or `None` where the
    /// table has no entry for `t`.
    pub fn allowed_neighbors_of(&self, t: TileType) -> (r: Option<&Vec<TileType>>)
        ensures
            match r {
                Some(v) => self.has_rule(t) && v@ == self.allowed_seq(t),
                None => !self.has_rule(t),
            },
    {
        let n = self.allowed_neighbors.len();
        proof {
            assert(self.entries().take(n as int) =~= self.entries());
        }
        let mut i: usize = n;
        while i > 0
            invariant
                i <= n,
                n == self.allowed_neighbors.len(),
                assoc_lookup(self.entries(), t) == assoc_lookup(
                    self.entries().take(i as int),
                    t,
                ),
            decreases i,
        {
            proof {
                assert(self.entries().take(i as int).last() == self.entries()[i - 1]);
                assert(self.entries().take(i as int).drop_last() =~= self.entries().take(
                    i - 1,
                ));
            }
            i = i - 1;
            if self.allowed_neighbors[i].0 == t {
                return Some(&self.allowed_neighbors[i].1);
            }
        }
        proof {
            assert(self.entries().take(0) =~= Seq::<(TileType, Seq<TileType>)>::empty());
        }
        None
    }

    /// Checks that every tile type has an entry: the fail-fast validation the
    /// engine's constructor runs on its configuration.
    pub fn validate(&self) -> (ok: bool)
        ensures
            ok == self.is_complete(),
    {
        let ok = self.allowed_neighbors_of(TileType::Ground).is_some()
            && self.allowed_neighbors_of(TileType::Wall).is_some()
            && self.allowed_neighbors_of(TileType::Tree).is_some()
            && self.allowed_neighbors_of(TileType::Column).is_some();
        proof {
            if ok {
                assert forall|t: TileType| self.has_rule(t) by {
                    match t {
                        TileType::Ground => assert(self.has_rule(TileType::Ground)),
                        TileType::Wall => assert(self.has_rule(TileType::Wall)),
                        TileType::Tree => assert(self.has_rule(TileType::Tree)),
                        TileType::Column => assert(self.has_rule(TileType::Column)),
                    }
                }
            }
        }
        ok
    }
}

impl Default for WFCRules {
    /// The stock table: Ground tolerates everything, Wall tolerates Ground
    /// and Wall, Tree and Column tolerate only Ground.
    fn default() -> (r: Self)
        ensures
            r.is_complete(),
            r.allowed_seq(TileType::Ground) == seq![
                TileType::Ground,
                TileType::Wall,
                TileType::Tree,
                TileType::Column,
            ],
            r.allowed_seq(TileType::Wall) == seq![TileType::Ground, TileType::Wall],
            r.allowed_seq(TileType::Tree) == seq![TileType::Ground],
            r.allowed_seq(TileType::Column) == seq![TileType::Ground],
    {
        let mut r = WFCRules::new();
        let mut ground_ok: Vec<TileType> = Vec::new();
        ground_ok.push(TileType::Ground);
        ground_ok.push(TileType::Wall);
        ground_ok.push(TileType::Tree);
        ground_ok.push(TileType::Column);
        proof {
            assert(ground_ok@ =~= seq![
                TileType::Ground,
                TileType::Wall,
                TileType::Tree,
                TileType::Column,
            ]);
        }
        r.insert_rule(TileType::Ground, ground_ok);
        let mut wall_ok: Vec<TileType> = Vec::new();
        wall_ok.push(TileType::Ground);
        wall_ok.push(TileType::Wall);
        proof {
            assert(wall_ok@ =~= seq![TileType::Ground, TileType::Wall]);
        }
        r.insert_rule(TileType::Wall, wall_ok);
        let mut tree_ok: Vec<TileType> = Vec::new();
        tree_ok.push(TileType::Ground);
        proof {
            assert(tree_ok@ =~= seq![TileType::Ground]);
        }
        r.insert_rule(TileType::Tree, tree_ok);
        let mut column_ok: Vec<TileType> = Vec::new();
        column_ok.push(TileType::Ground);
        proof {
            assert(column_ok@ =~= seq![TileType::Ground]);
        }
        r.insert_rule(TileType::Column, column_ok);
        proof {
            assert forall|t: TileType| r.has_rule(t) by {
                match t {
                    TileType::Ground => assert(r.has_rule(TileType::Ground)),
                    TileType::Wall => assert(r.has_rule(TileType::Wall)),
                    TileType::Tree => assert(r.has_rule(TileType::Tree)),
                    TileType::Column => assert(r.has_rule(TileType::Column)),
                }
            }
        }
        r
    }
}

/// The asset table: tile type -> identifier of the external representation
/// to request when a tile of that type is created.
pub struct AssetData {
    assets: Vec<(TileType, String)>,
}

impl AssetData {
    /// The table as a mathematical association list.
    pub closed spec fn entries(self) -> Seq<(TileType, Seq<char>)> {
        self.assets@.map_values(|p: (TileType, String)| (p.0, p.1@))
    }

    /// Whether `t` has an asset.
    pub open spec fn has_asset(self, t: TileType) -> bool {
        assoc_lookup(self.entries(), t) is Some
    }

    /// The asset identifier configured for `t`.
    pub open spec fn spec_asset(self, t: TileType) -> Seq<char>
        recommends
            self.has_asset(t),
    {
        assoc_lookup(self.entries(), t)->0
    }

    /// Every tile type has an asset; required of any table the engine runs on.
    pub open spec fn is_complete(self) -> bool {
        forall|t: TileType| self.has_asset(t)
    }

    /// An empty table.
    pub fn new() -> (r: Self)
        ensures
            r.entries() == Seq::<(TileType, Seq<char>)>::empty(),
            forall|t: TileType| !r.has_asset(t),
    {
        let r = AssetData { assets: Vec::new() };
        proof {
            assert(r.entries() =~= Seq::<(TileType, Seq<char>)>::empty());
        }
        r
    }

    /// Adds (or replaces) the asset for `t`.
    pub fn insert_asset(&mut self, t: TileType, asset: String)
        ensures
            final(self).entries() == old(self).entries().push((t, asset@)),
            final(self).has_asset(t),
            final(self).spec_asset(t) == asset@,
            forall|u: TileType| u != t ==> #[trigger] assoc_lookup(final(self).entries(), u)
                == assoc_lookup(old(self).entries(), u),
    {
        self.assets.push((t, asset));
        proof {
            assert(self.entries() =~= old(self).entries().push((t, asset@)));
            assert(self.entries().drop_last() =~= old(self).entries());
        }
    }

    /// Looks `t` up: its asset identifier, or `None` where the table has no
    /// entry for `t`.
    pub fn asset_of(&self, t: TileType) -> (r: Option<&String>)
        ensures
            match r {
                Some(s) => self.has_asset(t) && s@ == self.spec_asset(t),
                None => !self.has_asset(t),
            },
    {
        let n = self.assets.len();
        proof {
            assert(self.entries().take(n as int) =~= self.entries());
        }
        let mut i: usize = n;
        while i > 0
            invariant
                i <= n,
                n == self.assets.len(),
                assoc_lookup(self.entries(), t) == assoc_lookup(
                    self.entries().take(i as int),
                    t,
                ),
            decreases i,
        {
            proof {
                assert(self.entries().take(i as int).last() == self.entries()[i - 1]);
                assert(self.entries().take(i as int).drop_last() =~= self.entries().take(
                    i - 1,
                ));
            }
            i = i - 1;
            if self.assets[i].0 == t {
                return Some(&self.assets[i].1);
            }
        }
        proof {
            assert(self.entries().take(0) =~= Seq::<(TileType, Seq<char>)>::empty());
        }
        None
    }

    /// Checks that every tile type has an asset.
    pub fn validate(&self) -> (ok: bool)
        ensures
            ok == self.is_complete(),
    {
        let ok = self.asset_of(TileType::Ground).is_some()
            && self.asset_of(TileType::Wall).is_some()
            && self.asset_of(TileType::Tree).is_some()
            && self.asset_of(TileType::Column).is_some();
        proof {
            if ok {
                assert forall|t: TileType| self.has_asset(t) by {
                    match t {
                        TileType::Ground => assert(self.has_asset(TileType::Ground)),
                        TileType::Wall => assert(self.has_asset(TileType::Wall)),
                        TileType::Tree => assert(self.has_asset(TileType::Tree)),
                        TileType::Column => assert(self.has_asset(TileType::Column)),
                    }
                }
            }
        }
        ok
    }
}

impl Default for AssetData {
    /// The stock asset table of the engine's four tile kinds.
    fn default() -> (r: Self)
        ensures
            r.is_complete(),
            r.spec_asset(TileType::Wall) == "models/wall.glb#Scene0"@,
            r.spec_asset(TileType::Tree) == "models/tree.glb#Scene0"@,
            r.spec_asset(TileType::Column) == "models/column.glb#Scene0"@,
            r.spec_asset(TileType::Ground) == "models/floor.glb#Scene0"@,
    {
        let mut r = AssetData::new();
        r.insert_asset(TileType::Wall, "models/wall.glb#Scene0".to_string());
        r.insert_asset(TileType::Tree, "models/tree.glb#Scene0".to_string());
        r.insert_asset(TileType::Column, "models/column.glb#Scene0".to_string());
        r.insert_asset(TileType::Ground, "models/floor.glb#Scene0".to_string());
        proof {
            assert forall|t: TileType| r.has_asset(t) by {
                match t {
                    TileType::Ground => assert(r.has_asset(TileType::Ground)),
                    TileType::Wall => assert(r.has_asset(TileType::Wall)),
                    TileType::Tree => assert(r.has_asset(TileType::Tree)),
                    TileType::Column => assert(r.has_asset(TileType::Column)),
                }
            }
        }
        r
    }
}

} // verus!
