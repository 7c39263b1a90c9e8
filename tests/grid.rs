use cavegen::map::TileMap;
use cavegen::rect::Rect;
use cavegen::themes::{is_revealed_and_wall, wall_glyph};
use cavegen::tiletype::TileType;

fn open_room(w: i32, h: i32) -> TileMap {
    let mut m = TileMap::new(1, w, h, "room".to_string());
    for t in m.tiles.iter_mut() {
        *t = TileType::Floor;
    }
    m.close_boundary();
    m
}

#[test]
fn tile_properties() {
    assert!(TileType::Floor.is_walkable());
    assert!(TileType::DownStairs.is_walkable());
    assert!(TileType::ShallowWater.is_walkable());
    assert!(!TileType::DeepWater.is_walkable());
    assert!(!TileType::Wall.is_walkable());
    assert!(!TileType::Stalagmite.is_walkable());
    assert!(TileType::Wall.is_opaque());
    assert!(TileType::Stalactite.is_opaque());
    assert!(!TileType::DeepWater.is_opaque());
    assert!(!TileType::Floor.is_opaque());
}

#[test]
fn tile_costs() {
    assert_eq!(TileType::Road.cost_tenths(), 8);
    assert_eq!(TileType::Grass.cost_tenths(), 11);
    assert_eq!(TileType::ShallowWater.cost_tenths(), 12);
    assert_eq!(TileType::Floor.cost_tenths(), 10);
}

#[test]
fn new_map_is_all_wall() {
    let m = TileMap::new(4, 7, 3, "cave".to_string());
    assert_eq!(m.tiles.len(), 21);
    assert!(m.tiles.iter().all(|t| *t == TileType::Wall));
    assert!(m.revealed_tiles.iter().all(|b| !*b));
    assert_eq!(m.depth, 4);
    assert_eq!(m.name, "cave");
}

#[test]
fn index_is_row_major() {
    let m = TileMap::new(1, 10, 5, "x".to_string());
    assert_eq!(m.xy_idx(0, 0), 0);
    assert_eq!(m.xy_idx(3, 2), 23);
    assert_eq!(m.xy_idx(9, 4), 49);
    assert!(m.in_bounds_xy(9, 4));
    assert!(!m.in_bounds_xy(10, 0));
    assert!(!m.in_bounds_xy(0, -1));
}

#[test]
fn close_boundary_walls_only_the_ring() {
    let m = open_room(5, 4);
    for y in 0..4 {
        for x in 0..5 {
            let edge = x == 0 || x == 4 || y == 0 || y == 3;
            let t = m.tiles[m.xy_idx(x, y)];
            assert_eq!(t == TileType::Wall, edge, "at {} {}", x, y);
        }
    }
}

#[test]
fn rect_center_and_intersection() {
    let a = Rect::new(2, 3, 4, 6);
    assert_eq!((a.x1, a.y1, a.x2, a.y2), (2, 3, 6, 9));
    assert_eq!(a.center(), (4, 6));
    assert!(a.intersect(&Rect::new(6, 9, 2, 2)));
    assert!(!a.intersect(&Rect::new(7, 3, 2, 2)));
}

#[test]
fn revealed_wall_needs_both() {
    let mut m = open_room(5, 5);
    assert!(!is_revealed_and_wall(&m, 0, 0));
    m.revealed_tiles[0] = true;
    assert!(is_revealed_and_wall(&m, 0, 0));
    let i = m.xy_idx(2, 2);
    m.revealed_tiles[i] = true;
    assert!(!is_revealed_and_wall(&m, 2, 2));
}

#[test]
fn wall_glyph_masks() {
    let mut m = open_room(7, 7);
    assert_eq!(wall_glyph(&m, 0, 3), 35);
    assert_eq!(wall_glyph(&m, 3, 3), 9);
    for (x, y) in [(3, 2), (2, 3)] {
        let i = m.xy_idx(x, y);
        m.tiles[i] = TileType::Wall;
        m.revealed_tiles[i] = true;
    }
    // north and west
    assert_eq!(wall_glyph(&m, 3, 3), 188);
    for (x, y) in [(3, 4), (4, 3)] {
        let i = m.xy_idx(x, y);
        m.tiles[i] = TileType::Wall;
        m.revealed_tiles[i] = true;
    }
    assert_eq!(wall_glyph(&m, 3, 3), 206);
}
