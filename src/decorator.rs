use vstd::prelude::*;
use bracket_random::prelude::RandomNumberGenerator;
use crate::builder::BuilderMap;
use crate::map::{TileMap, edge_index, lemma_index_in_range, lemma_index_coords};
use crate::random::roll_dice;
use crate::reach::same_footing;
use crate::tiletype::TileType;

verus! {

/// What decoration may do to one tile: floor may become gravel or shallow
/// water, and an inner wall a stalactite or stalagmite.
pub open spec fn decorated(m: &TileMap, i: int, before: TileType, after: TileType) -> bool {
    ||| after == before
    ||| (before == TileType::Floor && (after == TileType::Gravel || after == TileType::ShallowWater))
    ||| (before == TileType::Wall && !edge_index(m.width as int, m.height as int, i) && (after
        == TileType::Stalactite || after == TileType::Stalagmite))
}

/// Scatters cosmetic variants over the cave: on a roll of 1d6 a floor tile
/// becomes gravel (1) or shallow water (2); on a roll of 1d8 an inner wall
/// becomes a stalactite (1) or a stalagmite (2). Walkability and opacity of
/// every tile stay as they were.
pub fn cave_decorator(data: &mut BuilderMap, rng: &mut RandomNumberGenerator)
    requires
        old(data).wf(),
        old(data).map.closed(),
    ensures
        final(data).wf(),
        final(data).map.closed(),
        final(data).map.width == old(data).map.width,
        final(data).map.height == old(data).map.height,
        final(data).map.depth == old(data).map.depth,
        final(data).spawn_list == old(data).spawn_list,
        final(data).starting_position == old(data).starting_position,
        final(data).record_history == old(data).record_history,
        forall|i: int|
            0 <= i < old(data).map.tiles@.len() ==> decorated(
                &old(data).map,
                i,
                old(data).map.tiles@[i],
                #[trigger] final(data).map.tiles@[i],
            ),
        forall|i: int|
            0 <= i < old(data).map.tiles@.len() ==> same_footing(
                old(data).map.tiles@[i],
                #[trigger] final(data).map.tiles@[i],
            ),
{
    let n = data.map.tiles.len();
    let w = data.map.width as usize;
    let h = data.map.height as usize;
    let ghost m0 = data.map;
    let mut i: usize = 0;
    while i < n
        invariant
            data.wf(),
            data.map.width == m0.width,
            data.map.height == m0.height,
            data.map.depth == m0.depth,
            m0 == old(data).map,
            data.spawn_list == old(data).spawn_list,
            data.starting_position == old(data).starting_position,
            data.record_history == old(data).record_history,
            n == m0.tiles@.len(),
            n == data.map.tiles@.len(),
            w == m0.width,
            h == m0.height,
            i <= n,
            forall|j: int| 0 <= j < n ==> decorated(&m0, j, m0.tiles@[j], #[trigger] data.map.tiles@[j]),
            forall|j: int| i <= j < n ==> #[trigger] data.map.tiles@[j] == m0.tiles@[j],
        decreases n - i,
    {
        let x = i % w;
        let y = i / w;
        let edge = x == 0 || x == w - 1 || y == 0 || y == h - 1;
        if data.map.tiles[i] == TileType::Floor {
            let roll = roll_dice(rng, 1, 6);
            if roll == 1 {
                data.map.tiles.set(i, TileType::Gravel);
            } else if roll == 2 {
                data.map.tiles.set(i, TileType::ShallowWater);
            }
        } else if data.map.tiles[i] == TileType::Wall && !edge {
            let roll = roll_dice(rng, 1, 8);
            if roll == 1 {
                data.map.tiles.set(i, TileType::Stalactite);
            } else if roll == 2 {
                data.map.tiles.set(i, TileType::Stalagmite);
            }
        }
        i += 1;
    }
    proof {
        let wi = m0.width as int;
        let hi = m0.height as int;
        assert forall|px: int, py: int|
            #![trigger data.map.at(px, py)]
            data.map.in_bounds(px, py) && data.map.on_edge(px, py) implies data.map.at(px, py)
                == TileType::Wall by {
            lemma_index_in_range(wi, hi, px, py);
            lemma_index_coords(wi, px, py);
            assert(m0.at(px, py) == TileType::Wall);
            assert(decorated(&m0, m0.idx(px, py), m0.tiles@[m0.idx(px, py)], data.map.tiles@[m0.idx(px, py)]));
        }
    }
}

} // verus!
