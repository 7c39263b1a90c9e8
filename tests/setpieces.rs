use bracket_random::prelude::RandomNumberGenerator;
use cavegen::biome::level_builder;
use cavegen::builder::BuilderMap;
use cavegen::cull::cull_unreachable;
use cavegen::dla::build_dla;
use cavegen::drunkard::{build_drunkard, count_floor, DrunkardSettings};
use cavegen::fov::Point;
use cavegen::map::TileMap;
use cavegen::prefab::{apply_sectional, section, PrefabKind};
use cavegen::reach::{distance_field, UNREACHED};
use cavegen::spawning::SpawnTable;
use cavegen::tiletype::TileType;

fn context(m: TileMap) -> BuilderMap {
    let (w, h) = (m.width, m.height);
    BuilderMap {
        spawn_list: Vec::new(),
        map: m,
        starting_position: None,
        rooms: None,
        corridors: None,
        history: Vec::new(),
        width: w,
        height: h,
        record_history: false,
    }
}

fn all_walkable_reached(m: &TileMap, sx: i32, sy: i32) -> bool {
    let d = distance_field(m, sx, sy);
    m.tiles.iter().enumerate().all(|(i, t)| !t.is_walkable() || d[i] != UNREACHED)
}

#[test]
fn orc_camp_keeps_the_corridor_connected() {
    let mut m = TileMap::new(4, 40, 30, "corridor".to_string());
    for x in 1..39 {
        let i = m.xy_idx(x, 15);
        m.tiles[i] = TileType::Floor;
    }
    let mut data = context(m);
    data.starting_position = Some(Point { x: 1, y: 15 });
    assert_eq!(cull_unreachable(&mut data), Ok(()));
    data.spawn_list.push((data.map.xy_idx(20, 15), "Bat".to_string()));
    data.spawn_list.push((data.map.xy_idx(36, 15), "Rat".to_string()));
    let camp = section(PrefabKind::OrcCamp);
    assert_eq!(camp.template.len(), 144);
    apply_sectional(&mut data, &camp);
    let m = &data.map;
    // The moat is stamped and the far end of the corridor is still reached.
    assert_eq!(m.tiles[m.xy_idx(15, 10)], TileType::DeepWater);
    assert_eq!(m.tiles[m.xy_idx(19, 10)], TileType::Floor);
    assert!(all_walkable_reached(m, 1, 15));
    let d = distance_field(m, 1, 15);
    assert_ne!(d[m.xy_idx(38, 15)], UNREACHED);
    // The old spawn inside the camp is gone; the one outside stays.
    assert!(!data.spawn_list.iter().any(|(_, t)| t == "Bat"));
    assert!(data.spawn_list.iter().any(|(_, t)| t == "Rat"));
    assert!(data.spawn_list.iter().any(|(_, t)| t == "Orc Leader"));
    assert_eq!(data.spawn_list.iter().filter(|(_, t)| t == "Orc").count(), 3);
}

#[test]
fn dla_grows_from_the_centre() {
    let mut rng = RandomNumberGenerator::seeded(21);
    let mut data = context(TileMap::new(4, 60, 40, "dla".to_string()));
    build_dla(&mut data, &mut rng);
    assert_eq!(data.starting_position, Some(Point { x: 30, y: 20 }));
    let floors = count_floor(&data.map.tiles);
    assert!(floors >= 600);
    assert_eq!(data.map.tiles[data.map.xy_idx(30, 20)], TileType::Floor);
    assert_eq!(data.map.tiles[data.map.xy_idx(29, 20)], TileType::Floor);
    // walkers stop where they meet the growing structure, so nearly all of
    // it hangs together around the centre
    let d = distance_field(&data.map, 30, 20);
    let reached = data.map.tiles.iter().enumerate().filter(|(i, t)| **t == TileType::Floor && d[*i] != UNREACHED).count();
    assert!(reached * 10 >= floors * 8, "{} of {}", reached, floors);
}

#[test]
fn drunkard_reaches_its_quota() {
    let mut rng = RandomNumberGenerator::seeded(8);
    let mut data = context(TileMap::new(3, 50, 40, "dw".to_string()));
    build_drunkard(&mut data, &mut rng, DrunkardSettings::winding_passages());
    assert_eq!(data.starting_position, Some(Point { x: 25, y: 20 }));
    assert!(count_floor(&data.map.tiles) >= 800);
}

#[test]
fn tiny_maps_stay_walled() {
    let mut rng = RandomNumberGenerator::seeded(8);
    let mut data = context(TileMap::new(3, 4, 4, "tiny".to_string()));
    build_drunkard(&mut data, &mut rng, DrunkardSettings::open_area());
    assert!(data.map.tiles.iter().all(|t| *t == TileType::Wall));
    assert_eq!(data.starting_position, None);
}

#[test]
fn deep_caverns_build() {
    for seed in [3u64, 4, 5] {
        let mut chain = level_builder(4, 80, 50).unwrap();
        chain.set_spawn_table(SpawnTable::new().add("Orc".to_string(), 5));
        let mut rng = RandomNumberGenerator::seeded(seed);
        assert_eq!(chain.build_map(&mut rng), Ok(()));
        let m = &chain.build_data.map;
        assert_eq!(m.name, "Deep Limestone Caverns");
        assert!(chain.build_data.spawn_list.iter().any(|(_, t)| t == "Orc Leader"));
    }
}
