use bracket_random::prelude::RandomNumberGenerator;
use cavegen::demo::{idx_xy, xy_idx, DemoState, DemoTile, FovAlgorithm, Mode};

#[test]
fn index_round_trip() {
    assert_eq!(xy_idx(80, 3, 2), 163);
    assert_eq!(idx_xy(80, 163), (3, 2));
    assert_eq!(idx_xy(7, 0), (0, 0));
}

#[test]
fn demo_room_is_walled() {
    let mut rng = RandomNumberGenerator::seeded(2);
    let s = DemoState::new(20, 12, &mut rng);
    assert_eq!(s.player_position, xy_idx(20, 10, 6));
    assert_eq!(s.map[s.player_position], DemoTile::Floor);
    assert_eq!(s.mode, Mode::Waiting);
    for x in 0..20 {
        assert_eq!(s.map[xy_idx(20, x, 0)], DemoTile::Wall);
        assert_eq!(s.map[xy_idx(20, x, 11)], DemoTile::Wall);
    }
    let walls = s.map.iter().filter(|t| **t == DemoTile::Wall).count();
    assert!(walls > 60);
}

fn open_state() -> DemoState {
    let mut rng = RandomNumberGenerator::seeded(2);
    let mut s = DemoState::new(6, 5, &mut rng);
    for y in 1..4 {
        for x in 1..5 {
            s.map[xy_idx(6, x, y)] = DemoTile::Floor;
        }
    }
    s
}

#[test]
fn exits_and_moves() {
    let mut s = open_state();
    assert!(s.is_exit_valid(1, 1));
    assert!(!s.is_exit_valid(0, 1));
    assert!(!s.is_exit_valid(5, 1));
    let exits = s.get_available_exits(xy_idx(6, 1, 1));
    assert_eq!(exits, vec![(xy_idx(6, 2, 1), 10), (xy_idx(6, 1, 2), 10), (xy_idx(6, 2, 2), 14)]);
    s.map[xy_idx(6, 2, 2)] = DemoTile::Wall;
    assert_eq!(s.get_available_exits(xy_idx(6, 1, 1)).len(), 2);
    s.player_position = xy_idx(6, 1, 1);
    s.move_player(-1, 0);
    assert_eq!(s.player_position, xy_idx(6, 1, 1));
    s.move_player(1, 0);
    assert_eq!(s.player_position, xy_idx(6, 2, 1));
    s.move_player(0, 1);
    assert_eq!(s.player_position, xy_idx(6, 2, 1));
    s.move_player(1, 1);
    assert_eq!(s.player_position, xy_idx(6, 3, 2));
    assert_eq!(s.mode, Mode::Waiting);
}

#[test]
fn fov_algorithm_toggles() {
    let mut s = open_state();
    assert_eq!(s.fov_algorithm, FovAlgorithm::Shadowcast);
    s.switch_fov_algorithm();
    assert_eq!(s.fov_algorithm, FovAlgorithm::Library);
    s.switch_fov_algorithm();
    assert_eq!(s.fov_algorithm, FovAlgorithm::Shadowcast);
}
