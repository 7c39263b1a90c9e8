use vstd::prelude::*;
use crate::map::TileMap;
use crate::tiletype::TileType;

verus! {

pub open spec fn revealed_wall(m: &TileMap, x: int, y: int) -> bool {
    m.at(x, y) == TileType::Wall && m.revealed_tiles@[m.idx(x, y)]
}

/// The tile at `(x, y)` is a wall the player has seen.
pub fn is_revealed_and_wall(map: &TileMap, x: i32, y: i32) -> (r: bool)
    requires
        map.wf(),
        map.in_bounds(x as int, y as int),
    ensures
        r == revealed_wall(map, x as int, y as int),
{
    let idx = map.xy_idx(x, y);
    map.tiles[idx] == TileType::Wall && map.revealed_tiles[idx]
}

/// Which of the four orthogonal neighbours are revealed walls: 1 north,
/// 2 south, 4 west, 8 east.
pub open spec fn wall_mask(m: &TileMap, x: int, y: int) -> int {
    (if revealed_wall(m, x, y - 1) { 1int } else { 0 }) + (if revealed_wall(m, x, y + 1) { 2int } else { 0 })
        + (if revealed_wall(m, x - 1, y) { 4int } else { 0 }) + (if revealed_wall(m, x + 1, y) { 8int } else { 0 })
}

/// The code page 437 line-drawing glyph that joins the walls of `mask`.
pub open spec fn mask_glyph(mask: int) -> u16 {
    if mask == 0 {
        9
    } else if mask == 1 || mask == 2 || mask == 3 {
        186
    } else if mask == 4 || mask == 8 || mask == 12 {
        205
    } else if mask == 5 {
        188
    } else if mask == 6 {
        187
    } else if mask == 7 {
        185
    } else if mask == 9 {
        200
    } else if mask == 10 {
        201
    } else if mask == 11 {
        204
    } else if mask == 13 {
        202
    } else if mask == 14 {
        203
    } else {
        206
    }
}

/// The glyph for a wall at `(x, y)`: a `#` (35) on the outer ring, otherwise
/// the line-drawing piece that joins its revealed wall neighbours.
pub fn wall_glyph(map: &TileMap, x: i32, y: i32) -> (r: u16)
    requires
        map.wf(),
    ensures
        (x < 1 || x > map.width - 2 || y < 1 || y > map.height - 2) ==> r == 35,
        !(x < 1 || x > map.width - 2 || y < 1 || y > map.height - 2) ==> r == mask_glyph(wall_mask(map, x as int, y as int)),
{
    if x < 1 || x > map.width - 2 || y < 1 || y > map.height - 2 {
        return 35;
    }
    let mut mask: u8 = 0;
    if is_revealed_and_wall(map, x, y - 1) {
        mask += 1;
    }
    if is_revealed_and_wall(map, x, y + 1) {
        mask += 2;
    }
    if is_revealed_and_wall(map, x - 1, y) {
        mask += 4;
    }
    if is_revealed_and_wall(map, x + 1, y) {
        mask += 8;
    }
    match mask {
        0 => 9,
        1 => 186,
        2 => 186,
        3 => 186,
        4 => 205,
        5 => 188,
        6 => 187,
        7 => 185,
        8 => 205,
        9 => 200,
        10 => 201,
        11 => 204,
        12 => 205,
        13 => 202,
        14 => 203,
        _ => 206,
    }
}

} // verus!
