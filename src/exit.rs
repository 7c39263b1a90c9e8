use vstd::prelude::*;
use crate::builder::{BuilderMap, BuildError};
use crate::map::{TileMap, index_of, lemma_index_decompose, lemma_index_in_range};
use crate::reach::{distance_field, reachable, shortest, is_walk, path_cost, UNREACHED};
use crate::tiletype::{TileType, walkable};

verus! {

/// The least cost of a walk from `(sx, sy)` to `(x, y)`.
pub open spec fn walk_distance(m: &TileMap, sx: int, sy: int, x: int, y: int) -> int {
    choose|c: int| shortest(m, sx, sy, x, y, c)
}

/// Tile `i` is walkable and a walk from `(sx, sy)` reaches it.
pub open spec fn reached_walkable(m: &TileMap, sx: int, sy: int, i: int) -> bool {
    let w = m.width as int;
    0 <= i < m.tiles@.len() && walkable(m.tiles@[i]) && reachable(m, sx, sy, i % w, i / w)
}

pub open spec fn tile_distance(m: &TileMap, sx: int, sy: int, i: int) -> int {
    walk_distance(m, sx, sy, i % (m.width as int), i / (m.width as int))
}

/// Tile `i` is the walkable tile farthest from `(sx, sy)` by walking, at a
/// positive distance, the lowest index among equally far ones.
pub open spec fn is_distant_exit(m: &TileMap, sx: int, sy: int, i: int) -> bool {
    &&& reached_walkable(m, sx, sy, i)
    &&& tile_distance(m, sx, sy, i) > 0
    &&& forall|j: int|
        #![trigger m.tiles@[j]]
        reached_walkable(m, sx, sy, j) ==> tile_distance(m, sx, sy, j) < tile_distance(m, sx, sy, i)
            || (tile_distance(m, sx, sy, j) == tile_distance(m, sx, sy, i) && i <= j)
}

/// Some walkable tile other than the start is reached at a positive distance.
pub open spec fn has_distant_tile(m: &TileMap, sx: int, sy: int) -> bool {
    exists|j: int| #[trigger] reached_walkable(m, sx, sy, j) && tile_distance(m, sx, sy, j) > 0
}

proof fn lemma_shortest_unique(m: &TileMap, sx: int, sy: int, x: int, y: int, c: int)
    requires
        shortest(m, sx, sy, x, y, c),
    ensures
        walk_distance(m, sx, sy, x, y) == c,
{
    let c2 = walk_distance(m, sx, sy, x, y);
    assert(shortest(m, sx, sy, x, y, c2));
    let p1 = choose|path: Seq<(int, int)>| is_walk(m, path, sx, sy, x, y) && path_cost(path) == c;
    let p2 = choose|path: Seq<(int, int)>| is_walk(m, path, sx, sy, x, y) && path_cost(path) == c2;
    assert(c <= path_cost(p2));
    assert(c2 <= path_cost(p1));
}

/// Puts the down stairs on the walkable tile farthest, by walking, from the
/// starting position.
pub fn distant_exit(data: &mut BuilderMap) -> (r: Result<(), BuildError>)
    requires
        old(data).wf(),
        old(data).map.closed(),
    ensures
        final(data).wf(),
        final(data).map.closed(),
        final(data).map.width == old(data).map.width,
        final(data).map.height == old(data).map.height,
        final(data).map.depth == old(data).map.depth,
        final(data).spawn_list == old(data).spawn_list,
        final(data).starting_position == old(data).starting_position,
        final(data).record_history == old(data).record_history,
        old(data).starting_position is None ==> r == Err::<(), BuildError>(BuildError::NoStartingPosition),
        old(data).starting_position matches Some(s) ==> {
            let sx = s.x as int;
            let sy = s.y as int;
            &&& r is Ok <==> has_distant_tile(&old(data).map, sx, sy)
            &&& r is Err ==> r == Err::<(), BuildError>(BuildError::NoReachableExit)
            &&& r is Ok ==> exists|i: int|
                is_distant_exit(&old(data).map, sx, sy, i) && final(data).map.tiles@
                    == old(data).map.tiles@.update(i, TileType::DownStairs)
        },
        r is Err ==> final(data).map == old(data).map,
{
    let start = match data.starting_position {
        None => {
            return Err(BuildError::NoStartingPosition);
        },
        Some(p) => p,
    };
    let ghost m0 = data.map;
    let ghost sx = start.x as int;
    let ghost sy = start.y as int;
    let ghost wi = m0.width as int;
    let ghost hi = m0.height as int;
    let d = distance_field(&data.map, start.x, start.y);
    let n = data.map.tiles.len();
    let mut best: Option<usize> = None;
    let mut best_d: u64 = 0;
    let mut i: usize = 0;
    while i < n
        invariant
            data.map == m0,
            m0.wf(),
            n == m0.tiles@.len(),
            d@.len() == n,
            wi == m0.width,
            hi == m0.height,
            m0.in_bounds(sx, sy),
            forall|x: int, y: int|
                #![trigger d@[m0.idx(x, y)]]
                m0.in_bounds(x, y) ==> (d@[m0.idx(x, y)] != UNREACHED <==> reachable(&m0, sx, sy, x, y)),
            forall|x: int, y: int|
                #![trigger d@[m0.idx(x, y)]]
                m0.in_bounds(x, y) && d@[m0.idx(x, y)] != UNREACHED ==> shortest(&m0, sx, sy, x, y, d@[m0.idx(x, y)] as int),
            i <= n,
            best is None ==> best_d == 0,
            best matches Some(b) ==> b < i && reached_walkable(&m0, sx, sy, b as int) && best_d
                == tile_distance(&m0, sx, sy, b as int) && best_d > 0,
            forall|j: int|
                #![trigger m0.tiles@[j]]
                0 <= j < i && reached_walkable(&m0, sx, sy, j) ==> tile_distance(&m0, sx, sy, j) <= best_d,
            forall|j: int|
                #![trigger m0.tiles@[j]]
                0 <= j < i && reached_walkable(&m0, sx, sy, j) && best is Some && j < best->Some_0 ==> tile_distance(&m0, sx, sy, j) < best_d,
        decreases n - i,
    {
        proof {
            lemma_index_decompose(wi, hi, i as int);
            let x = i as int % wi;
            let y = i as int / wi;
            assert(m0.idx(x, y) == i as int);
            if d@[i as int] != UNREACHED {
                lemma_shortest_unique(&m0, sx, sy, x, y, d@[i as int] as int);
            }
        }
        if data.map.tiles[i].is_walkable() && d[i] != UNREACHED && d[i] > best_d {
            best = Some(i);
            best_d = d[i];
        }
        i += 1;
    }
    match best {
        None => {
            proof {
                if has_distant_tile(&m0, sx, sy) {
                    let j = choose|j: int| #[trigger] reached_walkable(&m0, sx, sy, j) && tile_distance(&m0, sx, sy, j) > 0;
                    assert(m0.tiles@[j] == m0.tiles@[j]);
                }
            }
            Err(BuildError::NoReachableExit)
        },
        Some(b) => {
            data.map.tiles.set(b, TileType::DownStairs);
            proof {
                assert(is_distant_exit(&m0, sx, sy, b as int));
                assert forall|px: int, py: int|
                    #![trigger data.map.at(px, py)]
                    data.map.in_bounds(px, py) && data.map.on_edge(px, py) implies data.map.at(px, py)
                        == TileType::Wall by {
                    lemma_index_in_range(wi, hi, px, py);
                    assert(m0.at(px, py) == TileType::Wall);
                }
            }
            Ok(())
        },
    }
}

} // verus!
