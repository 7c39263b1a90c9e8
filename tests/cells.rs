use bracket_random::prelude::RandomNumberGenerator;
use cavegen::builder::BuilderMap;
use cavegen::chain::{BuilderChain, InitialMapBuilder, MetaMapBuilder};
use cavegen::map::TileMap;
use cavegen::tiletype::TileType;
use cavegen::reach::{distance_field, UNREACHED};
use cavegen::voronoi::{build_voronoi, carve_cells, voronoi_membership};

#[test]
fn membership_goes_to_nearest_seed() {
    let seeds = vec![(1, 1), (6, 1), (1, 1)];
    let cells = voronoi_membership(8, 3, &seeds);
    assert_eq!(cells.len(), 24);
    assert_eq!(cells[0], 0);
    assert_eq!(cells[3], 0);
    assert_eq!(cells[4], 1);
    assert_eq!(cells[7], 1);
    // a tie between the equal first and third seed goes to the first
    assert!(cells.iter().all(|c| *c != 2));
}

#[test]
fn cell_borders_stay_wall() {
    let mut m = TileMap::new(1, 8, 5, "v".to_string());
    let seeds = vec![(1, 2), (6, 2)];
    let cells = voronoi_membership(8, 5, &seeds);
    carve_cells(&mut m, &cells);
    for y in 1..4 {
        assert_eq!(m.tiles[m.xy_idx(2, y)], TileType::Floor);
        assert_eq!(m.tiles[m.xy_idx(5, y)], TileType::Floor);
    }
    // columns 3 and 4 are the border: each has a neighbour across it
    assert_eq!(m.tiles[m.xy_idx(3, 2)], TileType::Floor);
    assert_eq!(m.tiles[m.xy_idx(0, 2)], TileType::Wall);
}

#[test]
fn voronoi_builder_opens_cells() {
    let mut rng = RandomNumberGenerator::seeded(31);
    let mut data = BuilderMap {
        spawn_list: Vec::new(),
        map: TileMap::new(1, 60, 40, "v".to_string()),
        starting_position: None,
        rooms: None,
        corridors: None,
        history: Vec::new(),
        width: 60,
        height: 40,
        record_history: true,
    };
    build_voronoi(&mut data, &mut rng);
    let floors = data.map.tiles.iter().filter(|t| **t == TileType::Floor).count();
    assert!(floors > 1000);
    assert!(data.map.tiles.iter().any(|t| *t == TileType::Wall));
    assert!(!data.history.is_empty());
}

#[test]
fn voronoi_chain_runs() {
    let mut chain = BuilderChain::new(1, 50, 40, "cells".to_string());
    chain.start_with(InitialMapBuilder::VoronoiCells);
    chain.with(MetaMapBuilder::AreaStartingPosition(cavegen::area::XStart::Center, cavegen::area::YStart::Center));
    chain.with(MetaMapBuilder::CullUnreachable);
    chain.with(MetaMapBuilder::DistantExit);
    chain.with(MetaMapBuilder::DoorPlacement);
    let mut rng = RandomNumberGenerator::seeded(5);
    assert_eq!(chain.build_map(&mut rng), Ok(()));
    let m = &chain.build_data.map;
    assert_eq!(m.tiles.iter().filter(|t| **t == TileType::DownStairs).count(), 1);
}

#[test]
fn maze_is_one_connected_passage() {
    for seed in [1u64, 2, 3] {
        let mut chain = BuilderChain::new(1, 41, 31, "maze".to_string());
        chain.start_with(InitialMapBuilder::Maze);
        let mut rng = RandomNumberGenerator::seeded(seed);
        assert_eq!(chain.build_map(&mut rng), Ok(()));
        let data = &chain.build_data;
        assert_eq!(data.starting_position, Some(cavegen::fov::Point { x: 2, y: 2 }));
        let m = &data.map;
        let d = distance_field(m, 2, 2);
        let mut floors = 0;
        for (i, t) in m.tiles.iter().enumerate() {
            if *t == TileType::Floor {
                floors += 1;
                assert_ne!(d[i], UNREACHED);
            }
        }
        // 18 by 13 cells and the 233 openings between them
        assert_eq!(floors, 18 * 13 + 18 * 13 - 1);
    }
}

#[test]
fn maze_grid_starts_closed() {
    let g = cavegen::maze::Grid::new(3, 2);
    assert_eq!(g.cells.len(), 6);
    assert!(g.cells.iter().all(|c| c.top && c.right && c.bottom && c.left && !c.visited));
}
