use cavegen::fov::{field_of_view, Point};
use cavegen::map::TileMap;
use cavegen::tiletype::TileType;

fn open_room(w: i32, h: i32) -> TileMap {
    let mut m = TileMap::new(1, w, h, "room".to_string());
    for t in m.tiles.iter_mut() {
        *t = TileType::Floor;
    }
    m.close_boundary();
    m
}

fn sees(v: &[Point], x: i32, y: i32) -> bool {
    v.iter().any(|p| p.x == x && p.y == y)
}

#[test]
fn viewer_sees_own_tile() {
    let m = open_room(10, 10);
    for r in 0..4 {
        let v = field_of_view(4, 5, r, &m);
        assert_eq!(v[0], Point { x: 4, y: 5 });
    }
    let v = field_of_view(4, 5, 0, &m);
    assert_eq!(v.len(), 1);
}

#[test]
fn open_room_within_radius() {
    let m = open_room(20, 20);
    let v = field_of_view(10, 10, 3, &m);
    for p in &v {
        let d2 = (p.x - 10) * (p.x - 10) + (p.y - 10) * (p.y - 10);
        assert!(d2 < 9 || (p.x == 10 && p.y == 10));
    }
    assert!(sees(&v, 11, 11));
    assert!(sees(&v, 12, 10));
    assert!(sees(&v, 10, 8));
    assert!(!sees(&v, 13, 10));
}

#[test]
fn wall_hides_what_is_behind_it() {
    let mut m = open_room(20, 20);
    let i = m.xy_idx(12, 10);
    m.tiles[i] = TileType::Wall;
    let v = field_of_view(10, 10, 8, &m);
    assert!(sees(&v, 12, 10));
    assert!(!sees(&v, 14, 10));
    assert!(!sees(&v, 16, 10));
}

#[test]
fn points_stay_on_the_map() {
    let m = open_room(6, 6);
    let v = field_of_view(1, 1, 10, &m);
    assert!(v.iter().all(|p| p.x >= 0 && p.y >= 0 && p.x < 6 && p.y < 6));
}

#[test]
fn visibility_is_mutual_in_an_open_room() {
    let m = open_room(16, 12);
    let r = 6;
    for ay in 1..11 {
        for ax in 1..15 {
            let va = field_of_view(ax, ay, r, &m);
            for by in 1..11 {
                for bx in 1..15 {
                    let d2 = (ax - bx) * (ax - bx) + (ay - by) * (ay - by);
                    if d2 >= r * r {
                        continue;
                    }
                    let vb = field_of_view(bx, by, r, &m);
                    assert_eq!(sees(&va, bx, by), sees(&vb, ax, ay), "({},{}) ({},{})", ax, ay, bx, by);
                }
            }
        }
    }
}

#[test]
fn pillar_breaks_mutual_visibility() {
    let mut m = open_room(16, 12);
    for (x, y) in [(5, 5), (6, 5), (9, 3), (9, 4), (3, 8), (11, 8), (12, 8)] {
        let i = m.xy_idx(x, y);
        m.tiles[i] = TileType::Wall;
    }
    assert!(sees(&field_of_view(2, 1, 6, &m), 5, 6));
    assert!(!sees(&field_of_view(5, 6, 6, &m), 2, 1));
}
