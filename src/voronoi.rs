use vstd::prelude::*;
use bracket_random::prelude::RandomNumberGenerator;
use crate::area::dist2;
use crate::builder::BuilderMap;
use crate::map::{TileMap, index_of, lemma_index_decompose, lemma_index_in_range, lemma_index_coords};
use crate::random::roll_dice;
use crate::tiletype::TileType;

verus! {

/// Seed points of a Voronoi map.
pub const VORONOI_SEEDS: usize = 64;

/// Seed `s` is the nearest to `(x, y)` by squared distance, the first such
/// seed on ties.
pub open spec fn nearest_seed(seeds: Seq<(i32, i32)>, x: int, y: int, s: int) -> bool {
    &&& 0 <= s < seeds.len()
    &&& forall|j: int|
        0 <= j < seeds.len() ==> dist2(x, y, seeds[s].0 as int, seeds[s].1 as int) < dist2(
            x,
            y,
            (#[trigger] seeds[j]).0 as int,
            seeds[j].1 as int,
        ) || (dist2(x, y, seeds[s].0 as int, seeds[s].1 as int) == dist2(x, y, seeds[j].0 as int, seeds[j].1 as int) && s <= j)
}

pub open spec fn seeds_on_map(seeds: Seq<(i32, i32)>, w: int, h: int) -> bool {
    forall|j: int| 0 <= j < seeds.len() ==> 0 <= (#[trigger] seeds[j]).0 < w && 0 <= seeds[j].1 < h
}

fn sq_dist(x1: i32, y1: i32, x2: i32, y2: i32) -> (r: i64)
    requires
        0 <= x1 <= 0x7fff_ffff,
        0 <= y1 <= 0x7fff_ffff,
        0 <= x2 <= 0x7fff_ffff,
        0 <= y2 <= 0x7fff_ffff,
    ensures
        r == dist2(x1 as int, y1 as int, x2 as int, y2 as int),
{
    let dx = x1 as i64 - x2 as i64;
    let dy = y1 as i64 - y2 as i64;
    proof {
        assert(0 <= dx * dx <= 0x3fff_ffff_0000_0001) by (nonlinear_arith)
            requires -0x7fff_ffff <= dx <= 0x7fff_ffff;
        assert(0 <= dy * dy <= 0x3fff_ffff_0000_0001) by (nonlinear_arith)
            requires -0x7fff_ffff <= dy <= 0x7fff_ffff;
    }
    dx * dx + dy * dy
}

/// For every tile of a `w` by `h` grid, the index of its nearest seed.
pub fn voronoi_membership(w: i32, h: i32, seeds: &Vec<(i32, i32)>) -> (r: Vec<usize>)
    requires
        0 < w,
        0 < h,
        w * h <= i32::MAX,
        seeds@.len() >= 1,
        seeds_on_map(seeds@, w as int, h as int),
    ensures
        r@.len() == w * h,
        forall|x: int, y: int|
            0 <= x < w && 0 <= y < h ==> nearest_seed(seeds@, x, y, #[trigger] r@[index_of(w as int, x, y)] as int),
{
    let n = (w * h) as usize;
    let wu = w as usize;
    let mut r: Vec<usize> = Vec::new();
    let mut i: usize = 0;
    while i < n
        invariant
            n == w * h,
            wu == w,
            0 < w,
            0 < h,
            seeds@.len() >= 1,
            seeds_on_map(seeds@, w as int, h as int),
            r@.len() == i,
            i <= n,
            forall|j: int| 0 <= j < i ==> nearest_seed(seeds@, j % (w as int), j / (w as int), #[trigger] r@[j] as int),
        decreases n - i,
    {
        proof {
            lemma_index_decompose(w as int, h as int, i as int);
        }
        let x = (i % wu) as i32;
        let y = (i / wu) as i32;
        let mut best: usize = 0;
        let mut best_d = sq_dist(x, y, seeds[0].0, seeds[0].1);
        let mut s: usize = 1;
        while s < seeds.len()
            invariant
                seeds_on_map(seeds@, w as int, h as int),
                0 <= x < w,
                0 <= y < h,
                1 <= s <= seeds@.len(),
                best < s,
                best_d == dist2(x as int, y as int, seeds@[best as int].0 as int, seeds@[best as int].1 as int),
                forall|j: int|
                    0 <= j < s ==> best_d < dist2(x as int, y as int, (#[trigger] seeds@[j]).0 as int, seeds@[j].1 as int)
                        || (best_d == dist2(x as int, y as int, seeds@[j].0 as int, seeds@[j].1 as int) && best <= j),
            decreases seeds.len() - s,
        {
            let d = sq_dist(x, y, seeds[s].0, seeds[s].1);
            if d < best_d {
                best = s;
                best_d = d;
            }
            s += 1;
        }
        r.push(best);
        i += 1;
    }
    proof {
        assert forall|x: int, y: int|
            0 <= x < w && 0 <= y < h implies nearest_seed(seeds@, x, y, #[trigger] r@[index_of(w as int, x, y)] as int) by {
            lemma_index_in_range(w as int, h as int, x, y);
            lemma_index_coords(w as int, x, y);
        }
    }
    r
}

/// Number of orthogonal neighbours of `(x, y)` in another cell.
pub open spec fn foreign_neighbours(w: int, cell: Seq<usize>, x: int, y: int) -> int {
    let me = cell[index_of(w, x, y)];
    (if cell[index_of(w, x - 1, y)] != me { 1int } else { 0 }) + (if cell[index_of(w, x + 1, y)] != me { 1int } else { 0 })
        + (if cell[index_of(w, x, y - 1)] != me { 1int } else { 0 }) + (if cell[index_of(w, x, y + 1)] != me { 1int } else { 0 })
}

/// Opens the inside of every cell: an inner tile becomes floor when fewer
/// than two of its orthogonal neighbours lie in another cell; the rest keep
/// their tile.
pub fn carve_cells(m: &mut TileMap, cell: &Vec<usize>)
    requires
        old(m).wf(),
        cell@.len() == old(m).tiles@.len(),
    ensures
        final(m).wf(),
        final(m).width == old(m).width,
        final(m).height == old(m).height,
        final(m).depth == old(m).depth,
        forall|x: int, y: int|
            #![trigger final(m).at(x, y)]
            old(m).in_bounds(x, y) ==> final(m).at(x, y) == (if !old(m).on_edge(x, y) && foreign_neighbours(
                old(m).width as int,
                cell@,
                x,
                y,
            ) < 2 {
                TileType::Floor
            } else {
                old(m).at(x, y)
            }),
{
    let ghost m0 = *m;
    let ghost wi = m.width as int;
    let w = m.width;
    let h = m.height;
    let mut y: i32 = 1;
    while y < h - 1
        invariant
            m.wf(),
            m.width == m0.width,
            m.height == m0.height,
            m.depth == m0.depth,
            m0 == *old(m),
            w == m0.width,
            h == m0.height,
            wi == w,
            cell@.len() == m0.tiles@.len(),
            m.tiles@.len() == m0.tiles@.len(),
            1 <= y,
            forall|px: int, py: int|
                #![trigger m.at(px, py)]
                m0.in_bounds(px, py) ==> m.at(px, py) == (if 1 <= py < y && !m0.on_edge(px, py) && foreign_neighbours(wi, cell@, px, py) < 2 {
                    TileType::Floor
                } else {
                    m0.at(px, py)
                }),
        decreases h - y,
    {
        let mut x: i32 = 1;
        while x < w - 1
            invariant
                m.wf(),
                m.width == m0.width,
                m.height == m0.height,
                m.depth == m0.depth,
                w == m0.width,
                h == m0.height,
                wi == w,
                cell@.len() == m0.tiles@.len(),
                m.tiles@.len() == m0.tiles@.len(),
                1 <= y < h - 1,
                1 <= x,
                forall|px: int, py: int|
                    #![trigger m.at(px, py)]
                    m0.in_bounds(px, py) ==> m.at(px, py) == (if (1 <= py < y || (py == y && 1 <= px < x)) && !m0.on_edge(px, py)
                        && foreign_neighbours(wi, cell@, px, py) < 2 {
                        TileType::Floor
                    } else {
                        m0.at(px, py)
                    }),
            decreases w - x,
        {
            let idx = m.xy_idx(x, y);
            let me = cell[idx];
            let mut foreign: u32 = 0;
            if cell[m.xy_idx(x - 1, y)] != me { foreign += 1; }
            if cell[m.xy_idx(x + 1, y)] != me { foreign += 1; }
            if cell[m.xy_idx(x, y - 1)] != me { foreign += 1; }
            if cell[m.xy_idx(x, y + 1)] != me { foreign += 1; }
            if foreign < 2 {
                m.tiles.set(idx, TileType::Floor);
            }
            proof {
                assert forall|px: int, py: int|
                    #![trigger m.at(px, py)]
                    m0.in_bounds(px, py) implies m.at(px, py) == (if (1 <= py < y || (py == y && 1 <= px < x + 1)) && !m0.on_edge(px, py)
                        && foreign_neighbours(wi, cell@, px, py) < 2 {
                        TileType::Floor
                    } else {
                        m0.at(px, py)
                    }) by {
                    lemma_index_in_range(wi, h as int, px, py);
                    if index_of(wi, px, py) == idx {
                        crate::map::lemma_index_injective(wi, px, py, x as int, y as int);
                    }
                }
            }
            x += 1;
        }
        y += 1;
    }
}

/// `post` is `pre` carved into the Voronoi cells of `seeds`, whose nearest
/// seed per tile `cell` records, with the outer ring walled.
pub open spec fn voronoi_result(pre: &TileMap, post: &TileMap, seeds: Seq<(i32, i32)>, cell: Seq<usize>) -> bool {
    let w = pre.width as int;
    let h = pre.height as int;
    &&& seeds.len() == VORONOI_SEEDS
    &&& seeds_on_map(seeds, w, h)
    &&& cell.len() == w * h
    &&& forall|x: int, y: int| 0 <= x < w && 0 <= y < h ==> nearest_seed(seeds, x, y, #[trigger] cell[index_of(w, x, y)] as int)
    &&& forall|x: int, y: int|
        #![trigger post.at(x, y)]
        pre.in_bounds(x, y) ==> post.at(x, y) == (if pre.on_edge(x, y) {
            TileType::Wall
        } else if foreign_neighbours(w, cell, x, y) < 2 {
            TileType::Floor
        } else {
            pre.at(x, y)
        })
}

/// Voronoi caves: `VORONOI_SEEDS` random seed points, each tile in the cell
/// of its nearest seed, cell interiors opened up and the outer ring walled.
pub fn build_voronoi(data: &mut BuilderMap, rng: &mut RandomNumberGenerator)
    requires
        old(data).wf(),
    ensures
        final(data).wf(),
        final(data).map.closed(),
        final(data).map.width == old(data).map.width,
        final(data).map.height == old(data).map.height,
        final(data).map.depth == old(data).map.depth,
        final(data).spawn_list == old(data).spawn_list,
        final(data).starting_position == old(data).starting_position,
        final(data).record_history == old(data).record_history,
        old(data).map.width >= 3 && old(data).map.height >= 3 ==> exists|seeds: Seq<(i32, i32)>, cell: Seq<usize>|
            #[trigger] voronoi_result(&old(data).map, &final(data).map, seeds, cell),
{
    let w = data.map.width;
    let h = data.map.height;
    let ghost m0 = data.map;
    if w >= 3 && h >= 3 {
        let mut seeds: Vec<(i32, i32)> = Vec::new();
        while seeds.len() < VORONOI_SEEDS
            invariant
                seeds@.len() <= VORONOI_SEEDS,
                3 <= w,
                3 <= h,
                seeds_on_map(seeds@, w as int, h as int),
            decreases VORONOI_SEEDS - seeds@.len(),
        {
            let vx = roll_dice(rng, 1, w - 1);
            let vy = roll_dice(rng, 1, h - 1);
            seeds.push((vx, vy));
        }
        let cell = voronoi_membership(w, h, &seeds);
        carve_cells(&mut data.map, &cell);
        data.map.close_boundary();
        data.take_snapshot();
        proof {
            assert(voronoi_result(&m0, &data.map, seeds@, cell@));
        }
    } else {
        data.map.close_boundary();
        data.take_snapshot();
    }
}

} // verus!
