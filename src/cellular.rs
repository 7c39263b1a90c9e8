use vstd::prelude::*;
use bracket_random::prelude::RandomNumberGenerator;
use crate::map::{TileMap, index_of, lemma_index_in_range, lemma_index_decompose};
use crate::builder::BuilderMap;
use crate::random::roll_dice;
use crate::tiletype::TileType;

verus! {

/// Rounds of the neighbour rule applied after the random fill.
pub const GENERATIONS: usize = 15;

pub open spec fn wall_at(m: &TileMap, x: int, y: int) -> int {
    if m.at(x, y) == TileType::Wall {
        1
    } else {
        0
    }
}

/// Number of walls among the eight neighbours of `(x, y)`.
pub open spec fn wall_neighbours(m: &TileMap, x: int, y: int) -> int {
    wall_at(m, x - 1, y - 1) + wall_at(m, x, y - 1) + wall_at(m, x + 1, y - 1) + wall_at(m, x - 1, y)
        + wall_at(m, x + 1, y) + wall_at(m, x - 1, y + 1) + wall_at(m, x, y + 1) + wall_at(
        m,
        x + 1,
        y + 1,
    )
}

/// The neighbour rule: an interior cell becomes a wall when at least five of
/// its eight neighbours are walls, and floor otherwise; edge cells keep their
/// tile.
pub open spec fn next_tile(m: &TileMap, x: int, y: int) -> TileType {
    if m.on_edge(x, y) {
        m.at(x, y)
    } else if wall_neighbours(m, x, y) >= 5 {
        TileType::Wall
    } else {
        TileType::Floor
    }
}

pub open spec fn wall_in(t: Seq<TileType>, w: int, x: int, y: int) -> int {
    if t[index_of(w, x, y)] == TileType::Wall {
        1
    } else {
        0
    }
}

/// The neighbour rule at `(x, y)` on the tiles `t` of a `w` by `h` grid.
pub open spec fn rule_at(t: Seq<TileType>, w: int, h: int, x: int, y: int) -> TileType {
    if x == 0 || x == w - 1 || y == 0 || y == h - 1 {
        t[index_of(w, x, y)]
    } else if wall_in(t, w, x - 1, y - 1) + wall_in(t, w, x, y - 1) + wall_in(t, w, x + 1, y - 1) + wall_in(t, w, x - 1, y)
        + wall_in(t, w, x + 1, y) + wall_in(t, w, x - 1, y + 1) + wall_in(t, w, x, y + 1) + wall_in(t, w, x + 1, y + 1) >= 5 {
        TileType::Wall
    } else {
        TileType::Floor
    }
}

/// One round of the neighbour rule over the whole grid.
pub open spec fn rule_round(t: Seq<TileType>, w: int, h: int) -> Seq<TileType> {
    Seq::new(t.len(), |i: int| rule_at(t, w, h, i % w, i / w))
}

/// `k` rounds of the neighbour rule.
pub open spec fn rule_rounds(t: Seq<TileType>, w: int, h: int, k: nat) -> Seq<TileType>
    decreases k,
{
    if k == 0 {
        t
    } else {
        rule_round(rule_rounds(t, w, h, (k - 1) as nat), w, h)
    }
}

/// `post` is `GENERATIONS` rounds of the rule applied to the wall-and-floor
/// grid `noise`, with the outer ring walled.
pub open spec fn cellular_result(pre: &TileMap, post: &TileMap, noise: Seq<TileType>) -> bool {
    let w = pre.width as int;
    let h = pre.height as int;
    &&& noise.len() == pre.tiles@.len()
    &&& forall|i: int| 0 <= i < noise.len() ==> (#[trigger] noise[i] == TileType::Wall || noise[i] == TileType::Floor)
    &&& forall|x: int, y: int|
        #![trigger post.at(x, y)]
        pre.in_bounds(x, y) ==> post.at(x, y) == (if pre.on_edge(x, y) {
            TileType::Wall
        } else {
            rule_rounds(noise, w, h, GENERATIONS as nat)[index_of(w, x, y)]
        })
}

fn wall_count(m: &TileMap, x: i32, y: i32) -> (r: u32)
    requires
        m.wf(),
        1 <= x < m.width - 1,
        1 <= y < m.height - 1,
    ensures
        r == wall_neighbours(m, x as int, y as int),
{
    let mut r: u32 = 0;
    if m.tiles[m.xy_idx(x - 1, y - 1)] == TileType::Wall { r += 1; }
    if m.tiles[m.xy_idx(x, y - 1)] == TileType::Wall { r += 1; }
    if m.tiles[m.xy_idx(x + 1, y - 1)] == TileType::Wall { r += 1; }
    if m.tiles[m.xy_idx(x - 1, y)] == TileType::Wall { r += 1; }
    if m.tiles[m.xy_idx(x + 1, y)] == TileType::Wall { r += 1; }
    if m.tiles[m.xy_idx(x - 1, y + 1)] == TileType::Wall { r += 1; }
    if m.tiles[m.xy_idx(x, y + 1)] == TileType::Wall { r += 1; }
    if m.tiles[m.xy_idx(x + 1, y + 1)] == TileType::Wall { r += 1; }
    r
}

/// Applies the neighbour rule once to every cell at the same time.
pub fn cellular_step(m: &mut TileMap)
    requires
        old(m).wf(),
    ensures
        final(m).wf(),
        final(m).width == old(m).width,
        final(m).height == old(m).height,
        final(m).depth == old(m).depth,
        final(m).revealed_tiles == old(m).revealed_tiles,
        final(m).visible_tiles == old(m).visible_tiles,
        forall|x: int, y: int|
            #![trigger final(m).at(x, y)]
            old(m).in_bounds(x, y) ==> final(m).at(x, y) == next_tile(old(m), x, y),
        final(m).tiles@ == rule_round(old(m).tiles@, old(m).width as int, old(m).height as int),
{
    let ghost wi = m.width as int;
    let mut next: Vec<TileType> = m.tiles.clone();
    let mut y: i32 = 1;
    while y < m.height - 1
        invariant
            m.wf(),
            1 <= y,
            next@.len() == m.tiles@.len(),
            forall|px: int, py: int|
                #![trigger next@[index_of(wi, px, py)]]
                m.in_bounds(px, py) ==> next@[index_of(wi, px, py)] == (if 1 <= py < y {
                    next_tile(m, px, py)
                } else {
                    m.at(px, py)
                }),
            wi == m.width,
        decreases m.height - y,
    {
        let mut x: i32 = 1;
        while x < m.width - 1
            invariant
                m.wf(),
                1 <= y < m.height - 1,
                1 <= x,
                next@.len() == m.tiles@.len(),
                forall|px: int, py: int|
                    #![trigger next@[index_of(wi, px, py)]]
                    m.in_bounds(px, py) ==> next@[index_of(wi, px, py)] == (if 1 <= py < y || (py
                        == y && 1 <= px < x) {
                        next_tile(m, px, py)
                    } else {
                        m.at(px, py)
                    }),
                wi == m.width,
            decreases m.width - x,
        {
            let c = wall_count(m, x, y);
            let idx = m.xy_idx(x, y);
            let t = if c >= 5 {
                TileType::Wall
            } else {
                TileType::Floor
            };
            next.set(idx, t);
            proof {
                assert forall|px: int, py: int|
                    #![trigger next@[index_of(wi, px, py)]]
                    m.in_bounds(px, py) implies next@[index_of(wi, px, py)] == (if 1 <= py < y || (
                        py == y && 1 <= px < x + 1) {
                        next_tile(m, px, py)
                    } else {
                        m.at(px, py)
                    }) by {
                    lemma_index_in_range(wi, m.height as int, px, py);
                    if index_of(wi, px, py) == idx {
                        crate::map::lemma_index_injective(wi, px, py, x as int, y as int);
                    }
                }
            }
            x += 1;
        }
        y += 1;
    }
    m.tiles = next;
    proof {
        assert forall|px: int, py: int|
            #![trigger m.at(px, py)]
            m.in_bounds(px, py) implies m.at(px, py) == next_tile(old(m), px, py) by {
            assert(next@[index_of(wi, px, py)] == next@[index_of(wi, px, py)]);
        }
        let hi = m.height as int;
        assert forall|i: int| 0 <= i < m.tiles@.len() implies #[trigger] m.tiles@[i] == rule_round(old(m).tiles@, wi, hi)[i] by {
            lemma_index_decompose(wi, hi, i);
            let x = i % wi;
            let y = i / wi;
            assert(m.at(x, y) == next_tile(old(m), x, y));
        }
        assert(m.tiles@ =~= rule_round(old(m).tiles@, wi, hi));
    }
}

proof fn lemma_neighbours_in_range(m: &TileMap, x: int, y: int)
    requires
        m.wf(),
        1 <= x < m.width - 1,
        1 <= y < m.height - 1,
    ensures
        forall|dx: int, dy: int|
            -1 <= dx <= 1 && -1 <= dy <= 1 ==> 0 <= #[trigger] m.idx(x + dx, y + dy) < m.tiles@.len(),
{
    assert forall|dx: int, dy: int| -1 <= dx <= 1 && -1 <= dy <= 1 implies 0 <= #[trigger] m.idx(
        x + dx,
        y + dy,
    ) < m.tiles@.len() by {
        lemma_index_in_range(m.width as int, m.height as int, x + dx, y + dy);
    }
}

/// On a grid that is floor everywhere, the neighbour rule leaves every cell
/// as it is: no cell has a wall among its neighbours.
pub proof fn lemma_all_floor_is_fixed(m: &TileMap)
    requires
        m.wf(),
        forall|i: int| 0 <= i < m.tiles@.len() ==> m.tiles@[i] == TileType::Floor,
    ensures
        forall|x: int, y: int| #[trigger] m.in_bounds(x, y) ==> next_tile(m, x, y) == m.at(x, y),
{
    assert forall|x: int, y: int| #[trigger] m.in_bounds(x, y) implies next_tile(m, x, y) == m.at(x, y) by {
        lemma_index_in_range(m.width as int, m.height as int, x, y);
        if !m.on_edge(x, y) {
            lemma_neighbours_in_range(m, x, y);
            assert(m.idx(x - 1, y - 1) == m.idx(x + -1, y + -1));
            assert(m.idx(x, y - 1) == m.idx(x + 0, y + -1));
            assert(m.idx(x + 1, y - 1) == m.idx(x + 1, y + -1));
            assert(m.idx(x - 1, y) == m.idx(x + -1, y + 0));
            assert(m.idx(x + 1, y) == m.idx(x + 1, y + 0));
            assert(m.idx(x - 1, y + 1) == m.idx(x + -1, y + 1));
            assert(m.idx(x, y + 1) == m.idx(x + 0, y + 1));
            assert(wall_neighbours(m, x, y) == 0);
        }
    }
}

/// On a grid that is wall everywhere, the neighbour rule keeps every cell a
/// wall: each interior cell has eight walls around it.
pub proof fn lemma_all_wall_is_fixed(m: &TileMap)
    requires
        m.wf(),
        forall|i: int| 0 <= i < m.tiles@.len() ==> m.tiles@[i] == TileType::Wall,
    ensures
        forall|x: int, y: int| #[trigger] m.in_bounds(x, y) ==> next_tile(m, x, y) == TileType::Wall,
{
    assert forall|x: int, y: int| #[trigger] m.in_bounds(x, y) implies next_tile(m, x, y) == TileType::Wall by {
        lemma_index_in_range(m.width as int, m.height as int, x, y);
        if !m.on_edge(x, y) {
            lemma_neighbours_in_range(m, x, y);
            assert(m.idx(x - 1, y - 1) == m.idx(x + -1, y + -1));
            assert(m.idx(x, y - 1) == m.idx(x + 0, y + -1));
            assert(m.idx(x + 1, y - 1) == m.idx(x + 1, y + -1));
            assert(m.idx(x - 1, y) == m.idx(x + -1, y + 0));
            assert(m.idx(x + 1, y) == m.idx(x + 1, y + 0));
            assert(m.idx(x - 1, y + 1) == m.idx(x + -1, y + 1));
            assert(m.idx(x, y + 1) == m.idx(x + 0, y + 1));
            assert(wall_neighbours(m, x, y) == 8);
        }
    }
}

/// Seeds the map with random noise (a tile becomes floor when a roll of
/// 1d100 beats 55), applies the neighbour rule for `GENERATIONS` rounds and
/// walls in the outer ring.
pub fn build_cellular(data: &mut BuilderMap, rng: &mut RandomNumberGenerator)
    requires
        old(data).wf(),
    ensures
        final(data).wf(),
        final(data).map.closed(),
        final(data).map.width == old(data).map.width,
        final(data).map.height == old(data).map.height,
        final(data).map.depth == old(data).map.depth,
        final(data).spawn_list == old(data).spawn_list,
        final(data).starting_position == old(data).starting_position,
        final(data).record_history == old(data).record_history,
        exists|noise: Seq<TileType>| #[trigger] cellular_result(&old(data).map, &final(data).map, noise),
{
    let ghost m0 = data.map;
    let ghost wi = m0.width as int;
    let ghost hi = m0.height as int;
    let n = data.map.tiles.len();
    let mut i: usize = 0;
    while i < n
        invariant
            data.wf(),
            data.map.width == old(data).map.width,
            data.map.height == old(data).map.height,
            data.map.depth == old(data).map.depth,
            data.spawn_list == old(data).spawn_list,
            data.starting_position == old(data).starting_position,
            data.record_history == old(data).record_history,
            n == data.map.tiles@.len(),
            i <= n,
            forall|j: int| 0 <= j < i ==> (#[trigger] data.map.tiles@[j] == TileType::Wall || data.map.tiles@[j] == TileType::Floor),
        decreases n - i,
    {
        let roll = roll_dice(rng, 1, 100);
        if roll > 55 {
            data.map.tiles.set(i, TileType::Floor);
        } else {
            data.map.tiles.set(i, TileType::Wall);
        }
        i += 1;
    }
    data.take_snapshot();
    let ghost noise = data.map.tiles@;
    let mut g: usize = 0;
    while g < GENERATIONS
        invariant
            g <= GENERATIONS,
            data.map.tiles@ == rule_rounds(noise, wi, hi, g as nat),
            wi == data.map.width,
            hi == data.map.height,
            data.wf(),
            data.map.width == old(data).map.width,
            data.map.height == old(data).map.height,
            data.map.depth == old(data).map.depth,
            data.spawn_list == old(data).spawn_list,
            data.starting_position == old(data).starting_position,
            data.record_history == old(data).record_history,
        decreases GENERATIONS - g,
    {
        cellular_step(&mut data.map);
        data.take_snapshot();
        g += 1;
    }
    let ghost grown = data.map;
    data.map.close_boundary();
    data.take_snapshot();
    proof {
        assert forall|x: int, y: int|
            #![trigger data.map.at(x, y)]
            m0.in_bounds(x, y) implies data.map.at(x, y) == (if m0.on_edge(x, y) {
                TileType::Wall
            } else {
                rule_rounds(noise, wi, hi, GENERATIONS as nat)[index_of(wi, x, y)]
            }) by {
            assert(grown.at(x, y) == rule_rounds(noise, wi, hi, GENERATIONS as nat)[index_of(wi, x, y)]);
        }
        assert(cellular_result(&m0, &data.map, noise));
    }
}

} // verus!
