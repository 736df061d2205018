//! Unit checks for the placement math, the rule tables, the selector and
//! the registry.

use rand::SeedableRng;
use tile_stream::mapper::{Kare, calculate_tile_position, grid_to_world, is_tile_in_range, round_div};
use tile_stream::registry::TileRegistry;
use tile_stream::rules::{AssetData, WFCRules};
use tile_stream::selector::wfc_select_tile;
use tile_stream::tile::{Block, GridCoordinate, Tile, TileType, WorldPos, tile_universe};

fn stock_kare() -> Kare {
    Kare { bir_siradaki_kare_sayisi: 15, kare_kenar_uzunlugu: 8 }
}

fn origin() -> WorldPos {
    WorldPos { x: 0, y: 0, z: 0 }
}

#[test]
fn grid_to_world_scales_by_tile_size() {
    assert_eq!(grid_to_world(3, 5, 8), (24, 40));
    assert_eq!(grid_to_world(0, 14, 8), (0, 112));
    assert_eq!(grid_to_world(7, 7, 1), (7, 7));
}

#[test]
fn round_div_rounds_half_away_from_zero() {
    assert_eq!(round_div(3, 8), 0);
    assert_eq!(round_div(4, 8), 1);
    assert_eq!(round_div(-3, 8), 0);
    assert_eq!(round_div(-4, 8), -1);
    assert_eq!(round_div(12, 8), 2);
    assert_eq!(round_div(-12, 8), -2);
    assert_eq!(round_div(7, 1), 7);
    assert_eq!(round_div(0, 5), 0);
}

#[test]
fn tile_positions_recenter_on_the_observer() {
    let kare = stock_kare();
    // Observer at the origin: cell offsets shift back by half the extent.
    let p = calculate_tile_position(&origin(), 0, 0, &kare);
    assert_eq!((p.x, p.y, p.z), (-60, 0, -60));
    let p = calculate_tile_position(&origin(), 112, 112, &kare);
    assert_eq!((p.x, p.y, p.z), (52, 0, 52));
    // An observer within half a tile of the lattice keeps the same anchor.
    let p = calculate_tile_position(&WorldPos { x: 3, y: 0, z: 0 }, 0, 0, &kare);
    assert_eq!(p.x, -60);
    // Beyond half a tile the anchor snaps one tile over.
    let p = calculate_tile_position(&WorldPos { x: 4, y: 0, z: 0 }, 0, 0, &kare);
    assert_eq!(p.x, -52);
    let p = calculate_tile_position(&WorldPos { x: 0, y: 0, z: -9 }, 0, 0, &kare);
    assert_eq!(p.z, -68);
}

#[test]
fn range_test_is_exact_at_the_boundary() {
    let kare = stock_kare();
    // Radius (2/3) * 120 = 80 world units.
    assert!(is_tile_in_range(&origin(), 80, 0, &kare, 2, 3));
    assert!(!is_tile_in_range(&origin(), 81, 0, &kare, 2, 3));
    // The observer's own height enters the distance.
    let high = WorldPos { x: 0, y: 80, z: 0 };
    assert!(is_tile_in_range(&high, 0, 0, &kare, 2, 3));
    assert!(!is_tile_in_range(&WorldPos { x: 0, y: 81, z: 0 }, 0, 0, &kare, 2, 3));
    // Creation radius (2/9) * 120 is about 26.7: exact cross-multiplied.
    assert!(is_tile_in_range(&origin(), 26, 0, &kare, 2, 9));
    assert!(!is_tile_in_range(&origin(), 27, 0, &kare, 2, 9));
}

#[test]
fn universe_holds_each_type_once() {
    let u = tile_universe();
    assert_eq!(
        u,
        vec![TileType::Ground, TileType::Wall, TileType::Tree, TileType::Column]
    );
}

#[test]
fn stock_rules_match_the_design_table() {
    let rules = WFCRules::default();
    assert!(rules.validate());
    assert_eq!(
        rules.allowed_neighbors_of(TileType::Ground).unwrap(),
        &vec![TileType::Ground, TileType::Wall, TileType::Tree, TileType::Column]
    );
    assert_eq!(
        rules.allowed_neighbors_of(TileType::Wall).unwrap(),
        &vec![TileType::Ground, TileType::Wall]
    );
    assert_eq!(rules.allowed_neighbors_of(TileType::Tree).unwrap(), &vec![TileType::Ground]);
    assert_eq!(
        rules.allowed_neighbors_of(TileType::Column).unwrap(),
        &vec![TileType::Ground]
    );
}

#[test]
fn inserting_a_rule_again_replaces_it() {
    let mut rules = WFCRules::new();
    assert!(!rules.validate());
    assert!(rules.allowed_neighbors_of(TileType::Ground).is_none());
    rules.insert_rule(TileType::Ground, vec![TileType::Wall]);
    rules.insert_rule(TileType::Ground, vec![TileType::Tree]);
    assert_eq!(rules.allowed_neighbors_of(TileType::Ground).unwrap(), &vec![TileType::Tree]);
}

#[test]
fn stock_assets_match_the_design_table() {
    let assets = AssetData::default();
    assert!(assets.validate());
    assert_eq!(assets.asset_of(TileType::Wall).unwrap(), "models/wall.glb#Scene0");
    assert_eq!(assets.asset_of(TileType::Tree).unwrap(), "models/tree.glb#Scene0");
    assert_eq!(assets.asset_of(TileType::Column).unwrap(), "models/column.glb#Scene0");
    assert_eq!(assets.asset_of(TileType::Ground).unwrap(), "models/floor.glb#Scene0");
    assert!(AssetData::new().asset_of(TileType::Wall).is_none());
}

#[test]
fn selector_obeys_a_forcing_neighbor() {
    let rules = WFCRules::default();
    let mut rng = rand::rngs::StdRng::seed_from_u64(1);
    // A tree tolerates only ground, so ground is forced.
    for _ in 0..32 {
        let t = wfc_select_tile(
            &rules,
            &[Some(TileType::Tree), None, None, None],
            &mut rng,
            TileType::Ground,
        );
        assert_eq!(t, TileType::Ground);
    }
    // A wall beside a column forces ground as well.
    for _ in 0..32 {
        let t = wfc_select_tile(
            &rules,
            &[Some(TileType::Wall), Some(TileType::Column), None, None],
            &mut rng,
            TileType::Tree,
        );
        assert_eq!(t, TileType::Ground);
    }
}

#[test]
fn selector_falls_back_on_contradiction() {
    // Wall tolerates only trees and trees tolerate only walls: a wall and a
    // tree side by side contradict each other, and the default type wins.
    let mut rules = WFCRules::new();
    rules.insert_rule(TileType::Ground, vec![]);
    rules.insert_rule(TileType::Wall, vec![TileType::Tree]);
    rules.insert_rule(TileType::Tree, vec![TileType::Wall]);
    rules.insert_rule(TileType::Column, vec![]);
    let mut rng = rand::rngs::StdRng::seed_from_u64(2);
    let t = wfc_select_tile(
        &rules,
        &[Some(TileType::Wall), Some(TileType::Tree), None, None],
        &mut rng,
        TileType::Column,
    );
    assert_eq!(t, TileType::Column);
}

#[test]
fn selector_draws_only_candidates() {
    let rules = WFCRules::default();
    let mut rng = rand::rngs::StdRng::seed_from_u64(3);
    // Beside a wall, only ground or wall may stand.
    for _ in 0..64 {
        let t = wfc_select_tile(
            &rules,
            &[None, Some(TileType::Wall), None, None],
            &mut rng,
            TileType::Tree,
        );
        assert!(t == TileType::Ground || t == TileType::Wall);
    }
}

#[test]
fn registry_rejects_duplicate_cells() {
    let mut reg = TileRegistry::new();
    assert!(reg.is_empty());
    let tile = Tile {
        coordinate: GridCoordinate { x: 1, z: 2 },
        tile_type: TileType::Wall,
        world_position: WorldPos { x: 8, y: 0, z: 16 },
        external_handle: 0,
    };
    assert!(reg.insert(tile));
    assert!(reg.contains(8, 16));
    // Same world cell, different tile: rejected as a no-op.
    let dup = Tile { external_handle: 1, tile_type: TileType::Tree, ..tile };
    assert!(!reg.insert(dup));
    assert_eq!(reg.len(), 1);
    assert_eq!(reg.iterate()[0].external_handle, 0);
}

#[test]
fn registry_remove_returns_the_resident_tile() {
    let mut reg = TileRegistry::new();
    let a = Tile {
        coordinate: GridCoordinate { x: 0, z: 0 },
        tile_type: TileType::Ground,
        world_position: WorldPos { x: 0, y: 0, z: 0 },
        external_handle: 10,
    };
    let b = Tile {
        coordinate: GridCoordinate { x: 1, z: 0 },
        tile_type: TileType::Tree,
        world_position: WorldPos { x: 8, y: 0, z: 0 },
        external_handle: 11,
    };
    assert!(reg.insert(a));
    assert!(reg.insert(b));
    assert!(reg.remove(99, 99).is_none());
    let got = reg.remove(0, 0).unwrap();
    assert_eq!(got.external_handle, 10);
    assert!(!reg.contains(0, 0));
    assert!(reg.contains(8, 0));
    assert_eq!(reg.len(), 1);
}

#[test]
fn block_defaults_to_the_zero_tag() {
    assert_eq!(Block::default(), Block { id: 0 });
}

#[test]
fn default_window_dimensions_are_the_rejected_zero_window() {
    let kare = Kare::default();
    assert_eq!(kare.bir_siradaki_kare_sayisi, 0);
    assert_eq!(kare.kare_kenar_uzunlugu, 0);
}
