use bracket_random::prelude::RandomNumberGenerator;
use cavegen::biome::level_builder;
use cavegen::bsp::bsp_dungeon;
use cavegen::builder::BuilderMap;
use cavegen::map::TileMap;
use cavegen::rect::Rect;
use cavegen::reach::{distance_field, UNREACHED};
use cavegen::rooms::{bsp_corridors, carve_room, draw_corridor, room_based_starting_position, room_drawer};
use cavegen::spawning::SpawnTable;
use cavegen::fov::Point;
use cavegen::tiletype::TileType;

fn context(m: TileMap) -> BuilderMap {
    let (w, h) = (m.width, m.height);
    BuilderMap {
        spawn_list: Vec::new(),
        map: m,
        starting_position: None,
        rooms: None,
        corridors: None,
        history: Vec::new(),
        width: w,
        height: h,
        record_history: false,
    }
}

#[test]
fn bsp_rooms_are_separate_and_inside() {
    let mut rng = RandomNumberGenerator::seeded(17);
    let mut data = context(TileMap::new(6, 80, 50, "bsp".to_string()));
    bsp_dungeon(&mut data, &mut rng);
    let rooms = data.rooms.clone().unwrap();
    assert!(rooms.len() >= 4);
    for (i, a) in rooms.iter().enumerate() {
        assert!(a.x1 >= 3 && a.x2 <= 76 && a.y1 >= 3 && a.y2 <= 46);
        for b in rooms.iter().skip(i + 1) {
            assert!(!a.intersect(b));
        }
    }
    assert!(data.map.tiles.iter().all(|t| *t == TileType::Wall));
}

#[test]
fn carving_and_corridors() {
    let mut m = TileMap::new(1, 20, 12, "c".to_string());
    carve_room(&mut m, Rect::new(3, 3, 4, 4));
    assert_eq!(m.tiles[m.xy_idx(4, 4)], TileType::Floor);
    assert_eq!(m.tiles[m.xy_idx(7, 7)], TileType::Floor);
    assert_eq!(m.tiles[m.xy_idx(3, 3)], TileType::Wall);
    assert_eq!(m.tiles[m.xy_idx(8, 4)], TileType::Wall);
    let c = draw_corridor(&mut m, 5, 5, 14, 8);
    assert_eq!(m.tiles[m.xy_idx(14, 5)], TileType::Floor);
    assert_eq!(m.tiles[m.xy_idx(14, 8)], TileType::Floor);
    assert_eq!(m.tiles[m.xy_idx(10, 6)], TileType::Wall);
    assert_eq!(c.len(), 10);
    let d = distance_field(&m, 5, 5);
    assert_ne!(d[m.xy_idx(14, 8)], UNREACHED);
}

#[test]
fn rooms_joined_in_order() {
    let mut rng = RandomNumberGenerator::seeded(23);
    let mut data = context(TileMap::new(6, 80, 50, "bsp".to_string()));
    bsp_dungeon(&mut data, &mut rng);
    room_drawer(&mut data);
    bsp_corridors(&mut data, &mut rng);
    let rooms = data.rooms.clone().unwrap();
    assert_eq!(data.corridors.as_ref().unwrap().len(), rooms.len() - 1);
    room_based_starting_position(&mut data);
    let (cx, cy) = rooms[0].center();
    assert_eq!(data.starting_position, Some(Point { x: cx, y: cy }));
    let d = distance_field(&data.map, cx, cy);
    for r in &rooms {
        let (x, y) = r.center();
        assert_ne!(d[data.map.xy_idx(x, y)], UNREACHED);
    }
}

#[test]
fn fortress_levels_build() {
    for seed in [1u64, 2, 3] {
        let mut chain = level_builder(6, 80, 50).unwrap();
        chain.set_spawn_table(SpawnTable::new().add("Dwarf".to_string(), 3));
        let mut rng = RandomNumberGenerator::seeded(seed);
        assert_eq!(chain.build_map(&mut rng), Ok(()));
        let data = &chain.build_data;
        let start = data.starting_position.unwrap();
        let d = distance_field(&data.map, start.x, start.y);
        for (i, t) in data.map.tiles.iter().enumerate() {
            if t.is_walkable() {
                assert_ne!(d[i], UNREACHED);
            }
        }
    }
}

fn sketch(rows: &[&str]) -> TileMap {
    let h = rows.len() as i32;
    let w = rows[0].len() as i32;
    let mut m = TileMap::new(1, w, h, "sketch".to_string());
    for (y, row) in rows.iter().enumerate() {
        for (x, c) in row.chars().enumerate() {
            let i = m.xy_idx(x as i32, y as i32);
            m.tiles[i] = if c == '#' { TileType::Wall } else { TileType::Floor };
        }
    }
    m
}

#[test]
fn doors_go_in_chokepoints() {
    let mut data = context(sketch(&["#######", "#..#..#", "#.....#", "#..#..#", "#######"]));
    cavegen::doors::door_placement(&mut data);
    let doors: Vec<usize> = data.spawn_list.iter().map(|(i, _)| *i).collect();
    assert_eq!(doors, vec![data.map.xy_idx(3, 2)]);
    assert!(data.spawn_list.iter().all(|(_, t)| t == "Door"));
}

#[test]
fn corners_are_rounded() {
    let mut m = TileMap::new(1, 12, 12, "r".to_string());
    carve_room(&mut m, Rect::new(3, 3, 4, 4));
    let mut data = context(m);
    data.rooms = Some(vec![Rect::new(3, 3, 4, 4)]);
    cavegen::doors::room_corner_rounding(&mut data);
    let m = &data.map;
    assert_eq!(m.tiles[m.xy_idx(4, 4)], TileType::Wall);
    assert_eq!(m.tiles[m.xy_idx(7, 4)], TileType::Wall);
    assert_eq!(m.tiles[m.xy_idx(4, 7)], TileType::Wall);
    assert_eq!(m.tiles[m.xy_idx(7, 7)], TileType::Wall);
    assert_eq!(m.tiles[m.xy_idx(5, 4)], TileType::Floor);
}

#[test]
fn rooms_sorted_from_the_middle() {
    let mut data = context(TileMap::new(1, 40, 30, "s".to_string()));
    let far = Rect::new(3, 3, 4, 4);
    let near = Rect::new(18, 13, 4, 4);
    let mid = Rect::new(28, 20, 4, 4);
    data.rooms = Some(vec![far, near, mid]);
    cavegen::sorter::sort_rooms_central(&mut data);
    assert_eq!(data.rooms, Some(vec![near, mid, far]));
}

#[test]
fn corridor_spawns_stay_in_corridors() {
    let mut data = context(TileMap::new(5, 30, 20, "c".to_string()));
    let corridor = draw_corridor(&mut data.map, 2, 2, 25, 15);
    data.corridors = Some(vec![corridor.clone()]);
    data.starting_position = Some(Point { x: 3, y: 2 });
    let table = SpawnTable::new().add("Bat".to_string(), 1);
    let mut rng = RandomNumberGenerator::seeded(4);
    cavegen::spawning::corridor_spawner(&mut data, &mut rng, &table);
    assert!(!data.spawn_list.is_empty());
    for (i, t) in &data.spawn_list {
        assert!(corridor.contains(i));
        assert_ne!(*i, data.map.xy_idx(3, 2));
        assert_eq!(t, "Bat");
    }
}
