use bracket_random::prelude::RandomNumberGenerator;
use cavegen::area::{area_ending_position, area_starting_position, nearest_walkable, XStart, YStart};
use cavegen::builder::{BuildError, BuilderMap};
use cavegen::cellular::{build_cellular, cellular_step};
use cavegen::cull::cull_unreachable;
use cavegen::drunkard::count_floor;
use cavegen::exit::distant_exit;
use cavegen::fov::Point;
use cavegen::map::TileMap;
use cavegen::reach::{distance_field, UNREACHED};
use cavegen::spawning::{voronoi_spawning, SpawnTable};
use cavegen::tiletype::TileType;

fn context(m: TileMap) -> BuilderMap {
    let (w, h) = (m.width, m.height);
    BuilderMap {
        spawn_list: Vec::new(),
        map: m,
        starting_position: None,
        rooms: None,
        corridors: None,
        history: Vec::new(),
        width: w,
        height: h,
        record_history: false,
    }
}

/// Builds a map from rows of `#` (wall) and `.` (floor).
fn sketch(rows: &[&str]) -> TileMap {
    let h = rows.len() as i32;
    let w = rows[0].len() as i32;
    let mut m = TileMap::new(1, w, h, "sketch".to_string());
    for (y, row) in rows.iter().enumerate() {
        for (x, c) in row.chars().enumerate() {
            let i = m.xy_idx(x as i32, y as i32);
            m.tiles[i] = if c == '#' { TileType::Wall } else { TileType::Floor };
        }
    }
    m
}

#[test]
fn distances_straight_and_diagonal() {
    let m = sketch(&["#####", "#...#", "#...#", "#...#", "#####"]);
    let d = distance_field(&m, 1, 1);
    assert_eq!(d[m.xy_idx(1, 1)], 0);
    assert_eq!(d[m.xy_idx(2, 1)], 100);
    assert_eq!(d[m.xy_idx(2, 2)], 141);
    assert_eq!(d[m.xy_idx(3, 3)], 282);
    assert_eq!(d[m.xy_idx(3, 1)], 200);
    assert_eq!(d[m.xy_idx(3, 2)], 241);
    assert_eq!(d[m.xy_idx(0, 0)], UNREACHED);
}

#[test]
fn diagonal_cannot_cut_between_two_walls() {
    let m = sketch(&["#####", "#.#.#", "##..#", "#####"]);
    let d = distance_field(&m, 1, 1);
    assert_eq!(d[m.xy_idx(2, 2)], UNREACHED);
    let open = sketch(&["#####", "#..##", "##..#", "#####"]);
    let d = distance_field(&open, 1, 1);
    assert_eq!(d[open.xy_idx(2, 2)], 141);
}

#[test]
fn cellular_rule_fixed_points() {
    let mut floor = TileMap::new(1, 8, 6, "f".to_string());
    for t in floor.tiles.iter_mut() {
        *t = TileType::Floor;
    }
    let before = floor.tiles.clone();
    cellular_step(&mut floor);
    assert_eq!(floor.tiles, before);
    let mut wall = TileMap::new(1, 8, 6, "w".to_string());
    cellular_step(&mut wall);
    assert!(wall.tiles.iter().all(|t| *t == TileType::Wall));
}

#[test]
fn cellular_rule_counts_neighbours() {
    let mut m = sketch(&["#####", "##..#", "#...#", "#####"]);
    cellular_step(&mut m);
    // (1,2) has walls at five of its neighbours; (2,1) at four.
    assert_eq!(m.tiles[m.xy_idx(1, 2)], TileType::Wall);
    assert_eq!(m.tiles[m.xy_idx(2, 1)], TileType::Floor);
    // (1,1) was wall with five wall neighbours.
    assert_eq!(m.tiles[m.xy_idx(1, 1)], TileType::Wall);
    assert_eq!(m.tiles[m.xy_idx(0, 0)], TileType::Wall);
}

#[test]
fn cellular_builder_makes_closed_caves() {
    let mut rng = RandomNumberGenerator::seeded(7);
    let mut data = context(TileMap::new(1, 40, 30, "ca".to_string()));
    build_cellular(&mut data, &mut rng);
    let m = &data.map;
    assert!(count_floor(&m.tiles) > 0);
    assert!(m.tiles.iter().all(|t| *t == TileType::Floor || *t == TileType::Wall));
    for x in 0..40 {
        assert_eq!(m.tiles[m.xy_idx(x, 0)], TileType::Wall);
        assert_eq!(m.tiles[m.xy_idx(x, 29)], TileType::Wall);
    }
}

#[test]
fn nearest_walkable_breaks_ties_by_index() {
    let m = sketch(&["#####", "#.#.#", "##.##", "#.#.#", "#####"]);
    assert_eq!(nearest_walkable(&m, 2, 2), Some(m.xy_idx(2, 2)));
    let m = sketch(&["#####", "#.#.#", "#####", "#.#.#", "#####"]);
    assert_eq!(nearest_walkable(&m, 2, 2), Some(m.xy_idx(1, 1)));
    let walls = TileMap::new(1, 4, 4, "w".to_string());
    assert_eq!(nearest_walkable(&walls, 1, 1), None);
}

#[test]
fn start_and_end_positions() {
    let mut data = context(sketch(&["######", "#....#", "#....#", "######"]));
    assert_eq!(area_starting_position(&mut data, XStart::Left, YStart::Top), Ok(()));
    assert_eq!(data.starting_position, Some(Point { x: 1, y: 1 }));
    assert_eq!(area_ending_position(&mut data, XStart::Right, YStart::Bottom), Ok(()));
    assert_eq!(data.map.tiles[data.map.xy_idx(4, 2)], TileType::DownStairs);
    let mut empty = context(TileMap::new(1, 5, 5, "w".to_string()));
    assert_eq!(area_starting_position(&mut empty, XStart::Center, YStart::Center), Err(BuildError::NoWalkableTile));
    assert_eq!(empty.starting_position, None);
}

#[test]
fn cull_removes_what_cannot_be_reached() {
    let mut data = context(sketch(&["#######", "#..#..#", "#..#..#", "#######"]));
    assert_eq!(cull_unreachable(&mut data), Err(BuildError::NoStartingPosition));
    data.starting_position = Some(Point { x: 1, y: 1 });
    assert_eq!(cull_unreachable(&mut data), Ok(()));
    let m = &data.map;
    assert_eq!(m.tiles[m.xy_idx(2, 2)], TileType::Floor);
    assert_eq!(m.tiles[m.xy_idx(4, 1)], TileType::Wall);
    assert_eq!(m.tiles[m.xy_idx(5, 2)], TileType::Wall);
}

#[test]
fn exit_goes_to_the_farthest_tile() {
    let mut data = context(sketch(&["#######", "#.....#", "#.###.#", "#######"]));
    assert_eq!(distant_exit(&mut data), Err(BuildError::NoStartingPosition));
    data.starting_position = Some(Point { x: 1, y: 1 });
    assert_eq!(distant_exit(&mut data), Ok(()));
    let m = &data.map;
    assert_eq!(m.tiles[m.xy_idx(5, 2)], TileType::DownStairs);
    assert_eq!(m.tiles.iter().filter(|t| **t == TileType::DownStairs).count(), 1);
}

#[test]
fn exit_ties_take_the_lowest_index() {
    let mut data = context(sketch(&["#####", "#...#", "#####"]));
    data.starting_position = Some(Point { x: 2, y: 1 });
    assert_eq!(distant_exit(&mut data), Ok(()));
    assert_eq!(data.map.tiles[data.map.xy_idx(1, 1)], TileType::DownStairs);
    assert_eq!(data.map.tiles[data.map.xy_idx(3, 1)], TileType::Floor);
}

#[test]
fn exit_needs_a_tile_beyond_the_start() {
    let mut data = context(sketch(&["###", "#.#", "###"]));
    data.starting_position = Some(Point { x: 1, y: 1 });
    assert_eq!(distant_exit(&mut data), Err(BuildError::NoReachableExit));
    assert_eq!(data.map.tiles[4], TileType::Floor);
}

#[test]
fn spawn_table_rolls_only_weighted_tags() {
    let mut rng = RandomNumberGenerator::seeded(3);
    let empty = SpawnTable::new();
    assert_eq!(empty.roll(&mut rng), None);
    let t = SpawnTable::new().add("Goblin".to_string(), 10).add("Nothing".to_string(), 0).add("Orc".to_string(), 1);
    assert_eq!(t.total(), 11);
    let mut goblins = 0;
    for _ in 0..200 {
        let tag = t.roll(&mut rng).unwrap();
        assert!(tag == "Goblin" || tag == "Orc");
        if tag == "Goblin" {
            goblins += 1;
        }
    }
    assert!(goblins > 100 && goblins < 200);
}

#[test]
fn spawns_land_on_floor_away_from_start() {
    let mut rng = RandomNumberGenerator::seeded(11);
    let mut m = TileMap::new(5, 30, 20, "s".to_string());
    for t in m.tiles.iter_mut() {
        *t = TileType::Floor;
    }
    m.close_boundary();
    let mut data = context(m);
    data.starting_position = Some(Point { x: 5, y: 5 });
    let table = SpawnTable::new().add("Rat".to_string(), 1);
    voronoi_spawning(&mut data, &mut rng, &table);
    assert!(!data.spawn_list.is_empty());
    let start = data.map.xy_idx(5, 5);
    let mut seen = std::collections::HashSet::new();
    for (i, tag) in &data.spawn_list {
        assert_eq!(data.map.tiles[*i], TileType::Floor);
        assert_ne!(*i, start);
        assert_eq!(tag, "Rat");
        assert!(seen.insert(*i));
    }
}
