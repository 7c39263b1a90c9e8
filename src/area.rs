use vstd::prelude::*;
use crate::builder::{BuilderMap, BuildError};
use crate::fov::Point;
use crate::map::{TileMap, index_of, lemma_index_decompose, lemma_index_coords, lemma_index_in_range};
use crate::tiletype::{TileType, walkable};

verus! {

/// Column the search for a starting tile begins from.
#[derive(PartialEq, Eq, Structural, Copy, Clone, Debug)]
pub enum XStart {
    Left,
    Center,
    Right,
}

/// Row the search for a starting tile begins from.
#[derive(PartialEq, Eq, Structural, Copy, Clone, Debug)]
pub enum YStart {
    Top,
    Center,
    Bottom,
}

/// Squared Euclidean distance between two points.
pub open spec fn dist2(x1: int, y1: int, x2: int, y2: int) -> int {
    (x1 - x2) * (x1 - x2) + (y1 - y2) * (y1 - y2)
}

/// Squared distance from tile `i` of a `w`-wide grid to `(sx, sy)`.
pub open spec fn tile_dist2(w: int, i: int, sx: int, sy: int) -> int {
    dist2(i % w, i / w, sx, sy)
}

/// `i` is the walkable tile closest to `(sx, sy)`, the lowest index among
/// equally close ones.
pub open spec fn is_nearest_walkable(m: &TileMap, sx: int, sy: int, i: int) -> bool {
    &&& 0 <= i < m.tiles@.len()
    &&& walkable(m.tiles@[i])
    &&& forall|j: int|
        0 <= j < m.tiles@.len() && walkable(#[trigger] m.tiles@[j]) ==> tile_dist2(
            m.width as int,
            i,
            sx,
            sy,
        ) < tile_dist2(m.width as int, j, sx, sy) || (tile_dist2(m.width as int, i, sx, sy)
            == tile_dist2(m.width as int, j, sx, sy) && i <= j)
}

pub open spec fn has_walkable(m: &TileMap) -> bool {
    exists|j: int| 0 <= j < m.tiles@.len() && walkable(#[trigger] m.tiles@[j])
}

/// The point the search begins from: a column one in from the left or right
/// edge or in the middle, and likewise for the row; kept on the map.
pub open spec fn seed_coord(left: bool, center: bool, size: int) -> int {
    let raw = if left {
        1
    } else if center {
        size / 2
    } else {
        size - 2
    };
    if raw < 0 {
        0
    } else if raw >= size {
        size - 1
    } else {
        raw
    }
}

fn seed(left: bool, center: bool, size: i32) -> (r: i32)
    requires
        size > 0,
    ensures
        r == seed_coord(left, center, size as int),
        0 <= r < size,
{
    let raw = if left {
        1
    } else if center {
        size / 2
    } else {
        size - 2
    };
    if raw < 0 {
        0
    } else if raw >= size {
        size - 1
    } else {
        raw
    }
}

pub open spec fn start_seed(m: &TileMap, x: XStart, y: YStart) -> (int, int) {
    (
        seed_coord(x is Left, x is Center, m.width as int),
        seed_coord(y is Top, y is Center, m.height as int),
    )
}

/// The walkable tile closest to `(sx, sy)` by squared distance, the lowest
/// index among equally close ones; `None` when no tile is walkable.
pub fn nearest_walkable(m: &TileMap, sx: i32, sy: i32) -> (r: Option<usize>)
    requires
        m.wf(),
        m.in_bounds(sx as int, sy as int),
    ensures
        r matches Some(i) ==> is_nearest_walkable(m, sx as int, sy as int, i as int),
        r is None <==> !has_walkable(m),
{
    let n = m.tiles.len();
    let w = m.width as usize;
    let ghost wi = m.width as int;
    let mut best: Option<usize> = None;
    let mut best_d: i64 = 0;
    let mut i: usize = 0;
    while i < n
        invariant
            m.wf(),
            m.in_bounds(sx as int, sy as int),
            n == m.tiles@.len(),
            w == m.width,
            wi == m.width,
            i <= n,
            best is None ==> forall|j: int| 0 <= j < i ==> !walkable(#[trigger] m.tiles@[j]),
            best matches Some(b) ==> {
                &&& b < i
                &&& walkable(m.tiles@[b as int])
                &&& best_d == tile_dist2(wi, b as int, sx as int, sy as int)
                &&& forall|j: int|
                    0 <= j < i && walkable(#[trigger] m.tiles@[j]) ==> best_d < tile_dist2(
                        wi,
                        j,
                        sx as int,
                        sy as int,
                    ) || (best_d == tile_dist2(wi, j, sx as int, sy as int) && b <= j)
            },
        decreases n - i,
    {
        if m.tiles[i].is_walkable() {
            proof {
                lemma_index_decompose(wi, m.height as int, i as int);
            }
            let x = (i % w) as i64;
            let y = (i / w) as i64;
            let dx = x - sx as i64;
            let dy = y - sy as i64;
            proof {
                assert(0 <= dx * dx <= 0x3fff_ffff_0000_0001) by (nonlinear_arith)
                    requires -0x7fff_ffff <= dx <= 0x7fff_ffff;
                assert(0 <= dy * dy <= 0x3fff_ffff_0000_0001) by (nonlinear_arith)
                    requires -0x7fff_ffff <= dy <= 0x7fff_ffff;
            }
            let d = dx * dx + dy * dy;
            match best {
                None => {
                    best = Some(i);
                    best_d = d;
                },
                Some(_) => {
                    if d < best_d {
                        best = Some(i);
                        best_d = d;
                    }
                },
            }
        }
        i += 1;
    }
    proof {
        if best is None && has_walkable(m) {
            let j = choose|j: int| 0 <= j < m.tiles@.len() && walkable(#[trigger] m.tiles@[j]);
            assert(!walkable(m.tiles@[j]));
        }
    }
    best
}

/// Sets the starting position to the walkable tile nearest to the point
/// that `x` and `y` select.
pub fn area_starting_position(data: &mut BuilderMap, x: XStart, y: YStart) -> (r: Result<(), BuildError>)
    requires
        old(data).wf(),
    ensures
        final(data).wf(),
        final(data).map == old(data).map,
        final(data).spawn_list == old(data).spawn_list,
        final(data).record_history == old(data).record_history,
        r is Ok <==> has_walkable(&old(data).map),
        r is Err ==> r == Err::<(), BuildError>(BuildError::NoWalkableTile) && final(data).starting_position
            == old(data).starting_position,
        r is Ok ==> exists|i: int|
            is_nearest_walkable(
                &old(data).map,
                start_seed(&old(data).map, x, y).0,
                start_seed(&old(data).map, x, y).1,
                i,
            ) && final(data).starting_position == Some(
                Point { x: (i % old(data).width as int) as i32, y: (i / old(data).width as int) as i32 },
            ),
{
    let sx = seed(matches!(x, XStart::Left), matches!(x, XStart::Center), data.map.width);
    let sy = seed(matches!(y, YStart::Top), matches!(y, YStart::Center), data.map.height);
    match nearest_walkable(&data.map, sx, sy) {
        None => Err(BuildError::NoWalkableTile),
        Some(i) => {
            let w = data.map.width as usize;
            proof {
                lemma_index_decompose(data.map.width as int, data.map.height as int, i as int);
            }
            let p = Point { x: (i % w) as i32, y: (i / w) as i32 };
            data.starting_position = Some(p);
            proof {
                let ii = i as int;
                assert(sx as int == start_seed(&old(data).map, x, y).0);
                assert(sy as int == start_seed(&old(data).map, x, y).1);
                assert(is_nearest_walkable(&old(data).map, sx as int, sy as int, ii));
                assert(p == Point { x: (ii % old(data).width as int) as i32, y: (ii / old(data).width as int) as i32 });
            }
            Ok(())
        },
    }
}

/// Places the down stairs on the walkable tile nearest to the point that `x`
/// and `y` select.
pub fn area_ending_position(data: &mut BuilderMap, x: XStart, y: YStart) -> (r: Result<(), BuildError>)
    requires
        old(data).wf(),
        old(data).map.closed(),
    ensures
        final(data).wf(),
        final(data).map.closed(),
        final(data).map.width == old(data).map.width,
        final(data).map.height == old(data).map.height,
        final(data).map.depth == old(data).map.depth,
        final(data).spawn_list == old(data).spawn_list,
        final(data).starting_position == old(data).starting_position,
        final(data).record_history == old(data).record_history,
        r is Ok <==> has_walkable(&old(data).map),
        r is Err ==> r == Err::<(), BuildError>(BuildError::NoWalkableTile) && final(data).map
            == old(data).map,
        r is Ok ==> exists|i: int|
            is_nearest_walkable(
                &old(data).map,
                start_seed(&old(data).map, x, y).0,
                start_seed(&old(data).map, x, y).1,
                i,
            ) && final(data).map.tiles@ == old(data).map.tiles@.update(i, TileType::DownStairs),
{
    let sx = seed(matches!(x, XStart::Left), matches!(x, XStart::Center), data.map.width);
    let sy = seed(matches!(y, YStart::Top), matches!(y, YStart::Center), data.map.height);
    match nearest_walkable(&data.map, sx, sy) {
        None => Err(BuildError::NoWalkableTile),
        Some(i) => {
            data.map.tiles.set(i, TileType::DownStairs);
            proof {
                let m0 = &old(data).map;
                let wi = m0.width as int;
                assert forall|px: int, py: int|
                    #![trigger data.map.at(px, py)]
                    data.map.in_bounds(px, py) && data.map.on_edge(px, py) implies data.map.at(px, py)
                        == TileType::Wall by {
                    lemma_index_in_range(wi, m0.height as int, px, py);
                    assert(m0.at(px, py) == TileType::Wall);
                }
            }
            Ok(())
        },
    }
}

} // verus!
