use bracket_random::prelude::RandomNumberGenerator;
use cavegen::biome::{level_builder, limestone_cavern_builder};
use cavegen::chain::{BuilderChain, InitialMapBuilder, MetaMapBuilder};
use cavegen::builder::BuildError;
use cavegen::lighting::{Color, Factory};
use cavegen::reach::{distance_field, UNREACHED};
use cavegen::spawning::SpawnTable;
use cavegen::tiletype::TileType;

fn table() -> SpawnTable {
    SpawnTable::new().add("Goblin".to_string(), 10).add("Health Potion".to_string(), 7)
}

fn run(depth: i32, seed: u64) -> BuilderChain {
    let mut chain = level_builder(depth, 80, 50).unwrap();
    chain.set_spawn_table(table());
    let mut rng = RandomNumberGenerator::seeded(seed);
    chain.build_map(&mut rng).expect("level builds");
    chain
}

#[test]
fn same_seed_same_level() {
    for depth in [2, 3, 4, 5, 6, 8] {
        let a = run(depth, 1234);
        let b = run(depth, 1234);
        assert_eq!(a.build_data.map.tiles, b.build_data.map.tiles);
        assert_eq!(a.build_data.spawn_list, b.build_data.spawn_list);
        assert_eq!(a.build_data.starting_position, b.build_data.starting_position);
    }
}

#[test]
fn generated_levels_are_closed() {
    for depth in [2, 3, 4, 5, 6, 8] {
        for seed in [1u64, 99, 2024] {
            let c = run(depth, seed);
            let m = &c.build_data.map;
            for y in 0..m.height {
                for x in 0..m.width {
                    if x == 0 || y == 0 || x == m.width - 1 || y == m.height - 1 {
                        assert_eq!(m.tiles[m.xy_idx(x, y)], TileType::Wall);
                    }
                }
            }
        }
    }
}

#[test]
fn limestone_cavern_scenario() {
    for seed in [5u64, 42, 77] {
        let c = run(3, seed);
        let data = &c.build_data;
        assert!(!data.spawn_list.is_empty());
        let start = data.starting_position.expect("start");
        let m = &data.map;
        assert!(m.tiles[m.xy_idx(start.x, start.y)].is_walkable());
        assert_eq!(m.tiles.iter().filter(|t| **t == TileType::DownStairs).count(), 1);
        let d = distance_field(m, start.x, start.y);
        for (i, t) in m.tiles.iter().enumerate() {
            if t.is_walkable() {
                assert_ne!(d[i], UNREACHED, "tile {} cut off", i);
            }
        }
    }
}

#[test]
fn chain_without_start_stage_fails_cull() {
    let mut chain = BuilderChain::new(1, 30, 20, "t".to_string());
    chain.start_with(InitialMapBuilder::CellularAutomata);
    chain.with(MetaMapBuilder::CullUnreachable);
    let mut rng = RandomNumberGenerator::seeded(1);
    assert_eq!(chain.build_map(&mut rng), Err(BuildError::NoStartingPosition));
}

#[test]
fn limestone_chain_stages() {
    let c = limestone_cavern_builder(3, 80, 50);
    assert_eq!(c.builders.len(), 6);
    assert_eq!(c.build_data.map.name, "Limestone Caverns");
    assert_eq!(c.build_data.map.tiles.len(), 4000);
}

#[test]
fn light_factory() {
    let mut rng = RandomNumberGenerator::seeded(9);
    let candle = Factory::Candle.create(&mut rng);
    assert_eq!(candle.color, Color { r: 255, g: 127, b: 255 });
    assert_eq!((candle.radius, candle.intensity), (6, 64));
    let torch = Factory::Torch.create(&mut rng);
    assert_eq!((torch.radius, torch.intensity), (10, 96));
    let moss = Factory::Moss.create(&mut rng);
    assert_eq!(moss.color, Color { r: 173, g: 223, b: 173 });
    let mut radii = std::collections::HashSet::new();
    for _ in 0..50 {
        let l = Factory::Random.create(&mut rng);
        assert!(l.color.r % 60 == 0 && l.color.g % 60 == 0 && l.color.b % 60 == 0);
        assert!((10..15).contains(&l.radius));
        assert!((128..255).contains(&l.intensity));
        radii.insert(l.radius);
    }
    assert!(radii.len() > 1);
}

#[test]
fn depths_without_a_chain() {
    for depth in [0, 1, 7, 9, 10, 11] {
        assert!(level_builder(depth, 80, 50).is_none());
    }
    for depth in [2, 3, 4, 5, 6, 8] {
        assert!(level_builder(depth, 80, 50).is_some());
    }
}

#[test]
fn snapshots_follow_every_stage() {
    let mut chain = level_builder(3, 40, 30).unwrap();
    chain.set_spawn_table(table());
    chain.build_data.record_history = true;
    let mut rng = RandomNumberGenerator::seeded(77);
    chain.build_map(&mut rng).expect("level builds");
    let h = &chain.build_data.history;
    // the drunkard's walk records its own steps; then one snapshot per stage
    assert!(h.len() >= 1 + 6);
    let last = h.last().unwrap();
    assert_eq!(last.tiles, chain.build_data.map.tiles);
    assert!(last.revealed_tiles.iter().all(|b| *b));
}
