//! End-to-end scenarios for the streaming window manager.

use tile_stream::manager::{ConfigError, StreamConfig, StreamingWindowManager, TickOutput};
use tile_stream::mapper::Kare;
use tile_stream::rules::{AssetData, WFCRules};
use tile_stream::tile::{TileType, WorldPos};

fn stock_config() -> StreamConfig {
    StreamConfig {
        kare: Kare { bir_siradaki_kare_sayisi: 15, kare_kenar_uzunlugu: 8 },
        creation_radius_num: 2,
        creation_radius_den: 9,
        eviction_radius_num: 2,
        eviction_radius_den: 3,
        generation_cooldown: 500,
        eviction_cooldown: 500,
        rules: WFCRules::default(),
        default_type: TileType::Ground,
        assets: AssetData::default(),
    }
}

fn at(x: i64, y: i64, z: i64) -> WorldPos {
    WorldPos { x, y, z }
}

fn dist_sq(a: WorldPos, bx: i64, bz: i64) -> i128 {
    let dx = (a.x - bx) as i128;
    let dy = a.y as i128;
    let dz = (a.z - bz) as i128;
    dx * dx + dy * dy + dz * dz
}

#[test]
fn bootstrap_creates_full_window() {
    let mut m = StreamingWindowManager::new(stock_config(), 7).unwrap();
    let out = m.tick(Some(at(0, 0, 0)), 0, false);
    assert_eq!(out.creations.len(), 225);
    assert_eq!(out.removals.len(), 0);
    assert_eq!(m.tile_count(), 225);

    // One request per window cell, positions spanning -60..=52 in steps of 8
    // on each axis, at ground level, with handles counted up from zero.
    let mut seen = vec![false; 225];
    for (k, c) in out.creations.iter().enumerate() {
        assert!(c.coordinate.x < 15 && c.coordinate.z < 15);
        let idx = c.coordinate.x * 15 + c.coordinate.z;
        assert!(!seen[idx]);
        seen[idx] = true;
        assert_eq!(c.world_position.x, c.coordinate.x as i64 * 8 - 60);
        assert_eq!(c.world_position.z, c.coordinate.z as i64 * 8 - 60);
        assert_eq!(c.world_position.y, 0);
        assert_eq!(c.handle, k as u64);
        assert_eq!(c.block.id, 1);
    }
    assert!(seen.iter().all(|&s| s));

    // Every request carries the asset configured for its type.
    for c in &out.creations {
        let expected = match c.tile_type {
            TileType::Wall => "models/wall.glb#Scene0",
            TileType::Tree => "models/tree.glb#Scene0",
            TileType::Column => "models/column.glb#Scene0",
            TileType::Ground => "models/floor.glb#Scene0",
        };
        assert_eq!(c.asset, expected);
    }

    // A tree tolerates only ground, so no two grid-adjacent cells are both
    // trees.
    let mut grid = [[None; 15]; 15];
    for c in &out.creations {
        grid[c.coordinate.x][c.coordinate.z] = Some(c.tile_type);
    }
    for x in 0..15 {
        for z in 0..15 {
            if grid[x][z] == Some(TileType::Tree) {
                if x + 1 < 15 {
                    assert_ne!(grid[x + 1][z], Some(TileType::Tree));
                }
                if z + 1 < 15 {
                    assert_ne!(grid[x][z + 1], Some(TileType::Tree));
                }
            }
        }
    }
}

#[test]
fn unmoved_observer_with_cold_cooldowns_is_idempotent() {
    let mut m = StreamingWindowManager::new(stock_config(), 3).unwrap();
    m.tick(Some(at(0, 0, 0)), 0, false);
    let count = m.tile_count();
    // Neither cooldown has elapsed: repeated ticks must produce nothing.
    for now in [1u64, 100, 400, 500] {
        let out = m.tick(Some(at(0, 0, 0)), now, true);
        assert_eq!(out.creations.len(), 0);
        assert_eq!(out.removals.len(), 0);
        assert_eq!(m.tile_count(), count);
    }
}

#[test]
fn no_observer_tick_is_noop() {
    let mut m = StreamingWindowManager::new(stock_config(), 3).unwrap();
    let out = m.tick(None, 1000, true);
    assert_eq!(out.creations.len(), 0);
    assert_eq!(out.removals.len(), 0);
    assert_eq!(m.tile_count(), 0);
    // Still empty, so the next tick with an observer bootstraps in full.
    let out = m.tick(Some(at(0, 0, 0)), 2000, false);
    assert_eq!(out.creations.len(), 225);
}

#[test]
fn window_reanchors_after_cooldown_and_creates_only_absent_cells() {
    let mut m = StreamingWindowManager::new(stock_config(), 11).unwrap();
    let boot = m.tick(Some(at(0, 0, 0)), 0, false);
    assert_eq!(boot.creations.len(), 225);
    let occupied: Vec<(i64, i64)> =
        boot.creations.iter().map(|c| (c.world_position.x, c.world_position.z)).collect();

    // The observer has moved, but the generation cooldown has not elapsed:
    // no new tiles yet.
    let early = m.tick(Some(at(40, 0, 0)), 100, true);
    assert_eq!(early.creations.len(), 0);
    assert_eq!(early.removals.len(), 0);

    // After the cooldown the window re-anchors to the observer's cell, and
    // only previously-absent, now-in-range cells are created.
    let obs = at(40, 0, 0);
    let out = m.tick(Some(obs), 600, true);
    assert!(out.creations.len() > 0);
    for c in &out.creations {
        // Previously absent...
        assert!(!occupied.contains(&(c.world_position.x, c.world_position.z)));
        // ...and within the creation radius (2/9 of the window extent 120).
        let d2 = dist_sq(obs, c.world_position.x, c.world_position.z);
        assert!(d2 * 81 <= 4i128 * 120 * 120);
    }
    // A tile created this tick is never evicted in the same tick.
    for c in &out.creations {
        assert!(out.removals.iter().all(|r| r.handle != c.handle));
    }
}

#[test]
fn eviction_removes_each_far_tile_exactly_once() {
    let mut m = StreamingWindowManager::new(stock_config(), 5).unwrap();
    let boot = m.tick(Some(at(0, 0, 0)), 0, false);
    assert_eq!(boot.creations.len(), 225);

    // The observer jumps to twice the eviction threshold (2 * 80) away from
    // the window center; on the next eviction-eligible tick every tile
    // beyond the threshold is removed, each handle exactly once.
    let obs = at(160, 0, 0);
    let out = m.tick(Some(obs), 501, false);
    assert!(out.removals.len() > 0);
    for (i, r) in out.removals.iter().enumerate() {
        for (j, r2) in out.removals.iter().enumerate() {
            if i != j {
                assert_ne!(r.handle, r2.handle);
            }
        }
        // Each removal names a bootstrap tile that lies beyond the radius.
        let created = boot.creations.iter().find(|c| c.handle == r.handle).unwrap();
        let d2 = dist_sq(obs, created.world_position.x, created.world_position.z);
        assert!(d2 * 9 > 4i128 * 120 * 120);
    }
    // The tile at the window's near edge to the observer: (52, 0, 4) is at
    // distance sqrt(108^2 + 16) > 80 from (160, 0, 0), so everything the
    // bootstrap placed was beyond the radius and the registry is empty.
    for c in &boot.creations {
        let d2 = dist_sq(obs, c.world_position.x, c.world_position.z);
        assert!(d2 * 9 > 4i128 * 120 * 120);
    }
    assert_eq!(out.removals.len(), 225);
    assert_eq!(m.tile_count(), 0);
}

#[test]
fn remaining_tiles_lie_within_eviction_radius() {
    let mut m = StreamingWindowManager::new(stock_config(), 9).unwrap();
    m.tick(Some(at(0, 0, 0)), 0, false);
    // The corner tiles of the full window lie beyond the eviction radius
    // (dist about 84.8 > 80), so an eviction-eligible tick trims them.
    let obs = at(0, 0, 0);
    let out = m.tick(Some(obs), 501, false);
    assert!(out.removals.len() > 0);
    let reg = m.registry().iterate();
    for t in reg.iter() {
        let d2 = dist_sq(obs, t.world_position.x, t.world_position.z);
        assert!(d2 * 9 <= 4i128 * 120 * 120);
    }
    assert_eq!(reg.len() + out.removals.len(), 225);
}

#[test]
fn same_seed_reproduces_the_same_world() {
    let mut m1 = StreamingWindowManager::new(stock_config(), 42).unwrap();
    let mut m2 = StreamingWindowManager::new(stock_config(), 42).unwrap();
    let script: [(i64, u64, bool); 3] = [(0, 0, false), (40, 600, true), (80, 1200, true)];
    for (x, now, intent) in script {
        let o1: TickOutput = m1.tick(Some(at(x, 0, 0)), now, intent);
        let o2: TickOutput = m2.tick(Some(at(x, 0, 0)), now, intent);
        assert!(o1 == o2);
    }
}

#[test]
fn construction_rejects_each_configuration_fault() {
    let mut cfg = stock_config();
    cfg.kare.bir_siradaki_kare_sayisi = 0;
    assert!(matches!(
        StreamingWindowManager::new(cfg, 0),
        Err(ConfigError::BadWindow)
    ));

    let mut cfg = stock_config();
    cfg.creation_radius_den = 0;
    assert!(matches!(
        StreamingWindowManager::new(cfg, 0),
        Err(ConfigError::BadFactors)
    ));

    let mut cfg = stock_config();
    cfg.eviction_radius_num = 2;
    cfg.eviction_radius_den = 9;
    assert!(matches!(
        StreamingWindowManager::new(cfg, 0),
        Err(ConfigError::NoHysteresis)
    ));

    let mut cfg = stock_config();
    cfg.rules = WFCRules::new();
    assert!(matches!(
        StreamingWindowManager::new(cfg, 0),
        Err(ConfigError::IncompleteRules)
    ));

    let mut cfg = stock_config();
    cfg.assets = AssetData::new();
    assert!(matches!(
        StreamingWindowManager::new(cfg, 0),
        Err(ConfigError::IncompleteAssets)
    ));

    assert!(StreamingWindowManager::new(stock_config(), 0).is_ok());
}

#[test]
fn single_type_rule_set_degenerates_to_fixed_fill() {
    // Every type tolerates only walls beside it: after the first cell, each
    // cell has a decided neighbor, so the whole window fills with walls.
    let mut rules = WFCRules::new();
    rules.insert_rule(TileType::Ground, vec![TileType::Wall]);
    rules.insert_rule(TileType::Wall, vec![TileType::Wall]);
    rules.insert_rule(TileType::Tree, vec![TileType::Wall]);
    rules.insert_rule(TileType::Column, vec![TileType::Wall]);
    let mut cfg = stock_config();
    cfg.rules = rules;
    let mut m = StreamingWindowManager::new(cfg, 13).unwrap();
    let out = m.tick(Some(at(0, 0, 0)), 0, false);
    assert_eq!(out.creations.len(), 225);
    let mut non_wall = 0;
    for c in &out.creations {
        if c.tile_type != TileType::Wall {
            non_wall += 1;
            // Only the very first cell of the scan is unconstrained.
            assert_eq!((c.coordinate.x, c.coordinate.z), (0, 0));
        }
    }
    assert!(non_wall <= 1);
}

#[test]
fn permissive_rule_set_fills_the_window_unconstrained() {
    // Every type tolerating every type is the uniform random fill: the
    // bootstrap still covers the full window exactly once.
    let all = vec![TileType::Ground, TileType::Wall, TileType::Tree, TileType::Column];
    let mut rules = WFCRules::new();
    rules.insert_rule(TileType::Ground, all.clone());
    rules.insert_rule(TileType::Wall, all.clone());
    rules.insert_rule(TileType::Tree, all.clone());
    rules.insert_rule(TileType::Column, all.clone());
    let mut cfg = stock_config();
    cfg.rules = rules;
    let mut m = StreamingWindowManager::new(cfg, 17).unwrap();
    let out = m.tick(Some(at(0, 0, 0)), 0, false);
    assert_eq!(out.creations.len(), 225);
    assert_eq!(m.tile_count(), 225);
}
