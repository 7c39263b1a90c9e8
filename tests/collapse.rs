use bracket_random::prelude::RandomNumberGenerator;
use cavegen::builder::BuilderMap;
use cavegen::cellular::build_cellular;
use cavegen::map::TileMap;
use cavegen::tiletype::TileType;
use cavegen::wfc::{build_patterns, fits_exec, waveform_collapse, CHUNK, EAST, NORTH, SOUTH, WEST};

fn context(m: TileMap) -> BuilderMap {
    let (w, h) = (m.width, m.height);
    BuilderMap {
        spawn_list: Vec::new(),
        map: m,
        starting_position: None,
        rooms: None,
        corridors: None,
        history: Vec::new(),
        width: w,
        height: h,
        record_history: false,
    }
}

#[test]
fn patterns_are_distinct_chunks() {
    let m = TileMap::new(1, 16, 8, "w".to_string());
    let data = context(m);
    // every chunk of an all-wall map is the same
    assert_eq!(build_patterns(&data).len(), 1);
    let mut m = TileMap::new(1, 16, 8, "w".to_string());
    let i = m.xy_idx(1, 0);
    m.tiles[i] = TileType::Floor;
    let data = context(m);
    // the chunk with a gap, its mirror image, its flip, and the plain chunk
    assert_eq!(build_patterns(&data).len(), 4);
}

#[test]
fn exits_must_meet() {
    let wall = vec![TileType::Wall; CHUNK * CHUNK];
    let mut gap = wall.clone();
    gap[3] = TileType::Floor;
    // a chunk without exits fits anywhere
    assert!(fits_exec(&wall, &gap, NORTH));
    assert!(fits_exec(&gap, &wall, NORTH));
    let mut below = wall.clone();
    below[7 * CHUNK + 3] = TileType::Floor;
    assert!(fits_exec(&gap, &below, NORTH));
    let mut shifted = wall.clone();
    shifted[7 * CHUNK + 5] = TileType::Floor;
    assert!(!fits_exec(&gap, &shifted, NORTH));
    // closed sides facing each other fit
    assert!(fits_exec(&gap, &shifted, EAST));
    assert!(fits_exec(&gap, &below, WEST));
    assert!(!fits_exec(&below, &gap, SOUTH) || fits_exec(&gap, &below, NORTH));
}

#[test]
fn collapse_rebuilds_from_chunks() {
    let mut rng = RandomNumberGenerator::seeded(12);
    let mut data = context(TileMap::new(8, 80, 50, "w".to_string()));
    build_cellular(&mut data, &mut rng);
    let before = data.map.tiles.clone();
    assert_eq!(waveform_collapse(&mut data, &mut rng), Ok(()));
    assert_ne!(data.map.tiles, before);
    // the two rows below the last whole chunk row are wall
    for x in 0..80 {
        assert_eq!(data.map.tiles[data.map.xy_idx(x, 48)], TileType::Wall);
    }
}

#[test]
fn too_many_patterns_is_an_error() {
    let (w, h) = (280, 160);
    let mut m = TileMap::new(2, w, h, "noise".to_string());
    let mut state: u64 = 0x2545F4914F6CDD1D;
    for y in 1..h - 1 {
        for x in 1..w - 1 {
            state ^= state << 13;
            state ^= state >> 7;
            state ^= state << 17;
            if state % 2 == 0 {
                let i = m.xy_idx(x, y);
                m.tiles[i] = TileType::Floor;
            }
        }
    }
    let mut data = context(m);
    assert!(build_patterns(&data).len() > cavegen::wfc::MAX_PATTERNS);
    let before = data.map.tiles.clone();
    let mut rng = RandomNumberGenerator::seeded(1);
    assert_eq!(waveform_collapse(&mut data, &mut rng), Err(cavegen::builder::BuildError::WaveformContradiction));
    assert_eq!(data.map.tiles, before);
}
