use vstd::prelude::*;
use crate::builder::{BuilderMap, BuildError};
use crate::map::{TileMap, index_of, lemma_index_in_range};
use crate::reach::{
    distance_field, reachable, is_walk, step, lemma_walk_prefix, lemma_walk_extend, UNREACHED,
};
use crate::tiletype::{TileType, walkable, opaque};

verus! {

/// `new_m` is `old_m` with every walkable tile that no walk from `(sx, sy)`
/// reaches turned into a wall.
pub open spec fn culled(old_m: &TileMap, new_m: &TileMap, sx: int, sy: int) -> bool {
    &&& old_m.wf()
    &&& new_m.wf()
    &&& new_m.width == old_m.width
    &&& new_m.height == old_m.height
    &&& forall|x: int, y: int|
        #![trigger new_m.at(x, y)]
        old_m.in_bounds(x, y) ==> new_m.at(x, y) == (if walkable(old_m.at(x, y)) && !reachable(
            old_m,
            sx,
            sy,
            x,
            y,
        ) {
            TileType::Wall
        } else {
            old_m.at(x, y)
        })
}

/// After culling, every walkable tile can be walked to from the start: the
/// walkable tiles form one connected region around it.
pub proof fn lemma_cull_connects(old_m: &TileMap, new_m: &TileMap, sx: int, sy: int, x: int, y: int)
    requires
        culled(old_m, new_m, sx, sy),
        old_m.in_bounds(sx, sy),
        new_m.in_bounds(x, y),
        walkable(new_m.at(x, y)),
    ensures
        reachable(new_m, sx, sy, x, y),
{
    assert(new_m.at(x, y) == old_m.at(x, y));
    assert(reachable(old_m, sx, sy, x, y));
    let path = choose|path: Seq<(int, int)>| is_walk(old_m, path, sx, sy, x, y);
    assert forall|k: int| 0 <= k < path.len() - 1 implies step(
        new_m,
        path[k].0,
        path[k].1,
        #[trigger] path[k + 1].0,
        path[k + 1].1,
    ) by {
        let (px, py) = path[k];
        let (qx, qy) = path[k + 1];
        assert(step(old_m, px, py, qx, qy));
        lemma_walk_prefix(old_m, path, sx, sy, x, y, k + 1);
        assert(reachable(old_m, sx, sy, qx, qy));
        assert(new_m.at(qx, qy) == old_m.at(qx, qy));
        lemma_walk_prefix(old_m, path, sx, sy, x, y, k);
        let pre = path.take(k + 1);
        if px != qx && py != qy {
            // A walkable corner is one straight step from `(px, py)`, so it
            // is reached and stays as it was; any other corner is never touched.
            if walkable(old_m.at(qx, py)) {
                assert(step(old_m, px, py, qx, py));
                lemma_walk_extend(old_m, pre, sx, sy, px, py, qx, py);
                assert(reachable(old_m, sx, sy, qx, py));
            }
            if walkable(old_m.at(px, qy)) {
                assert(step(old_m, px, py, px, qy));
                lemma_walk_extend(old_m, pre, sx, sy, px, py, px, qy);
                assert(reachable(old_m, sx, sy, px, qy));
            }
            assert(new_m.at(qx, py) == old_m.at(qx, py) || (walkable(old_m.at(qx, py)) && !reachable(old_m, sx, sy, qx, py)));
            assert(new_m.at(px, qy) == old_m.at(px, qy) || (walkable(old_m.at(px, qy)) && !reachable(old_m, sx, sy, px, qy)));
        }
    }
    assert(is_walk(new_m, path, sx, sy, x, y));
}

/// Turns every walkable tile that cannot be walked to from the starting
/// position into a wall.
pub fn cull_unreachable(data: &mut BuilderMap) -> (r: Result<(), BuildError>)
    requires
        old(data).wf(),
        old(data).map.closed(),
    ensures
        final(data).wf(),
        final(data).map.closed(),
        final(data).map.depth == old(data).map.depth,
        final(data).spawn_list == old(data).spawn_list,
        final(data).starting_position == old(data).starting_position,
        final(data).record_history == old(data).record_history,
        r is Err <==> old(data).starting_position is None,
        r is Err ==> r == Err::<(), BuildError>(BuildError::NoStartingPosition) && final(data).map
            == old(data).map,
        r is Ok ==> culled(
            &old(data).map,
            &final(data).map,
            old(data).starting_position->Some_0.x as int,
            old(data).starting_position->Some_0.y as int,
        ),
        r is Ok ==> forall|x: int, y: int|
            #![trigger final(data).map.at(x, y)]
            final(data).map.in_bounds(x, y) && walkable(final(data).map.at(x, y)) ==> reachable(
                &final(data).map,
                old(data).starting_position->Some_0.x as int,
                old(data).starting_position->Some_0.y as int,
                x,
                y,
            ),
{
    let start = match data.starting_position {
        None => {
            return Err(BuildError::NoStartingPosition);
        },
        Some(p) => p,
    };
    let d = distance_field(&data.map, start.x, start.y);
    let ghost m0 = data.map;
    let ghost wi = m0.width as int;
    let n = data.map.tiles.len();
    let mut i: usize = 0;
    while i < n
        invariant
            data.wf(),
            data.map.width == m0.width,
            data.map.height == m0.height,
            data.map.depth == m0.depth,
            data.map.name == m0.name,
            data.map.revealed_tiles == m0.revealed_tiles,
            data.map.visible_tiles == m0.visible_tiles,
            data.spawn_list == old(data).spawn_list,
            data.starting_position == old(data).starting_position,
            data.record_history == old(data).record_history,
            m0 == old(data).map,
            n == m0.tiles@.len(),
            data.map.tiles@.len() == n,
            d@.len() == n,
            i <= n,
            forall|j: int|
                0 <= j < n ==> #[trigger] data.map.tiles@[j] == (if j < i && walkable(m0.tiles@[j])
                    && d@[j] == UNREACHED {
                    TileType::Wall
                } else {
                    m0.tiles@[j]
                }),
        decreases n - i,
    {
        if data.map.tiles[i].is_walkable() && d[i] == UNREACHED {
            data.map.tiles.set(i, TileType::Wall);
        }
        i += 1;
    }
    proof {
        let sx = start.x as int;
        let sy = start.y as int;
        assert forall|x: int, y: int|
            #![trigger data.map.at(x, y)]
            m0.in_bounds(x, y) implies data.map.at(x, y) == (if walkable(m0.at(x, y)) && !reachable(
                &m0,
                sx,
                sy,
                x,
                y,
            ) {
                TileType::Wall
            } else {
                m0.at(x, y)
            }) by {
            lemma_index_in_range(wi, m0.height as int, x, y);
            assert(d@[m0.idx(x, y)] != UNREACHED <==> reachable(&m0, sx, sy, x, y));
        }
        assert(culled(&m0, &data.map, sx, sy));
        assert forall|x: int, y: int|
            #![trigger data.map.at(x, y)]
            data.map.in_bounds(x, y) && walkable(data.map.at(x, y)) implies reachable(
                &data.map,
                sx,
                sy,
                x,
                y,
            ) by {
            lemma_cull_connects(&m0, &data.map, sx, sy, x, y);
        }
        assert forall|x: int, y: int|
            #![trigger data.map.at(x, y)]
            data.map.in_bounds(x, y) && data.map.on_edge(x, y) implies data.map.at(x, y)
                == TileType::Wall by {
            assert(m0.at(x, y) == TileType::Wall);
        }
    }
    Ok(())
}

} // verus!
