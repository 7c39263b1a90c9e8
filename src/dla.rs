use vstd::prelude::*;
use bracket_random::prelude::RandomNumberGenerator;
use crate::builder::BuilderMap;
use crate::drunkard::count_floor;
use crate::fov::Point;
use crate::lines::{bresenham_line, between};
use crate::map::TileMap;
use crate::random::roll_dice;
use crate::tiletype::TileType;

verus! {

/// Share of the map, in percent, that aggregation grows to.
pub const DLA_FLOOR_PERCENT: u64 = 25;

/// Paints a two by two block of floor with `(x, y)` as its lower right
/// corner, leaving out anything within two tiles of the map's edge.
fn paint(m: &mut TileMap, x: i32, y: i32)
    requires
        old(m).wf(),
        1 <= x < old(m).width,
        1 <= y < old(m).height,
    ensures
        final(m).wf(),
        final(m).width == old(m).width,
        final(m).height == old(m).height,
        final(m).depth == old(m).depth,
        forall|i: int| 0 <= i < old(m).tiles@.len() && old(m).tiles@[i] == TileType::Floor ==> #[trigger] final(m).tiles@[i] == TileType::Floor,
{
    let mut by = y - 1;
    while by < y + 1
        invariant
            m.wf(),
            m.width == old(m).width,
            m.height == old(m).height,
            m.depth == old(m).depth,
            1 <= x < m.width,
            y - 1 <= by <= y + 1,
            1 <= y < m.height,
            m.tiles@.len() == old(m).tiles@.len(),
            forall|i: int| 0 <= i < old(m).tiles@.len() && old(m).tiles@[i] == TileType::Floor ==> #[trigger] m.tiles@[i] == TileType::Floor,
        decreases y + 1 - by,
    {
        let mut bx = x - 1;
        while bx < x + 1
            invariant
                m.wf(),
                m.width == old(m).width,
                m.height == old(m).height,
                m.depth == old(m).depth,
                1 <= x < m.width,
                x - 1 <= bx <= x + 1,
                y - 1 <= by < y + 1,
                1 <= y < m.height,
                m.tiles@.len() == old(m).tiles@.len(),
                forall|i: int| 0 <= i < old(m).tiles@.len() && old(m).tiles@[i] == TileType::Floor ==> #[trigger] m.tiles@[i] == TileType::Floor,
            decreases x + 1 - bx,
        {
            if bx > 1 && bx < m.width - 1 && by > 1 && by < m.height - 1 {
                let idx = m.xy_idx(bx, by);
                m.tiles.set(idx, TileType::Floor);
            }
            bx += 1;
        }
        by += 1;
    }
}

/// Diffusion-limited aggregation around a central seed: walkers start at
/// random interior points and head for the centre along a straight line;
/// where a walker first meets floor, the tile it came from (with its
/// neighbours up and to the left) becomes floor. Runs until a quarter of the
/// map is floor, or as many walkers as there are tiles have run. The
/// starting position is the centre and the outer ring stays wall.
pub fn build_dla(data: &mut BuilderMap, rng: &mut RandomNumberGenerator)
    requires
        old(data).wf(),
    ensures
        final(data).wf(),
        final(data).map.closed(),
        final(data).map.width == old(data).map.width,
        final(data).map.height == old(data).map.height,
        final(data).map.depth == old(data).map.depth,
        final(data).spawn_list == old(data).spawn_list,
        final(data).record_history == old(data).record_history,
        old(data).map.width >= 5 && old(data).map.height >= 5 ==> final(data).starting_position
            == Some(Point { x: (old(data).map.width / 2) as i32, y: (old(data).map.height / 2) as i32 })
            && final(data).map.at(old(data).map.width / 2, old(data).map.height / 2) == TileType::Floor,
        old(data).map.width < 5 || old(data).map.height < 5 ==> final(data).starting_position
            == old(data).starting_position,
{
    let w = data.map.width;
    let h = data.map.height;
    if w < 5 || h < 5 {
        data.map.close_boundary();
        return;
    }
    let cx = w / 2;
    let cy = h / 2;
    data.starting_position = Some(Point { x: cx, y: cy });
    let seeds: [(i32, i32); 5] = [(cx, cy), (cx - 1, cy), (cx + 1, cy), (cx, cy - 1), (cx, cy + 1)];
    let mut s: usize = 0;
    while s < 5
        invariant
            data.wf(),
            data.map.width == w,
            data.map.height == h,
            w >= 5,
            h >= 5,
            cx == w / 2,
            cy == h / 2,
            forall|j: int| 0 <= j < 5 ==> 1 <= (#[trigger] seeds@[j]).0 < w - 1 && 1 <= seeds@[j].1 < h - 1,
            data.map.depth == old(data).map.depth,
            data.spawn_list == old(data).spawn_list,
            data.record_history == old(data).record_history,
            data.starting_position == Some(Point { x: cx, y: cy }),
            s > 0 ==> data.map.at(cx as int, cy as int) == TileType::Floor,
            seeds@[0] == (cx, cy),
        decreases 5 - s,
    {
        let idx = data.map.xy_idx(seeds[s].0, seeds[s].1);
        proof {
            crate::map::lemma_index_in_range(w as int, h as int, cx as int, cy as int);
        }
        data.map.tiles.set(idx, TileType::Floor);
        s += 1;
    }
    let n = data.map.tiles.len();
    proof {
        assert(n <= i32::MAX);
        assert(w <= 500000000 && h <= 500000000) by (nonlinear_arith)
            requires w * h <= i32::MAX, w >= 5, h >= 5;
    }
    let desired = ((n as u64) * DLA_FLOOR_PERCENT / 100) as usize;
    let mut floor_tiles = count_floor(&data.map.tiles);
    let mut walkers: usize = 0;
    while floor_tiles < desired && walkers < n
        invariant
            data.wf(),
            data.map.width == w,
            data.map.height == h,
            w >= 5,
            h >= 5,
            cx == w / 2,
            cy == h / 2,
            data.map.depth == old(data).map.depth,
            data.spawn_list == old(data).spawn_list,
            data.record_history == old(data).record_history,
            data.starting_position == Some(Point { x: cx, y: cy }),
            n == data.map.tiles@.len(),
            w <= 500000000 && h <= 500000000,
            data.map.at(cx as int, cy as int) == TileType::Floor,
        decreases n - walkers,
    {
        let x0 = roll_dice(rng, 1, w - 3) + 1;
        let y0 = roll_dice(rng, 1, h - 3) + 1;
        let path = bresenham_line(x0, y0, cx, cy);
        let mut x = x0;
        let mut y = y0;
        let mut prev_x = x0;
        let mut prev_y = y0;
        let mut k: usize = 0;
        while k < path.len() && data.map.tiles[data.map.xy_idx(x, y)] == TileType::Wall
            invariant
                data.wf(),
                data.map.width == w,
                data.map.height == h,
                2 <= x0 <= w - 2,
                2 <= y0 <= h - 2,
                cx == w / 2,
                cy == h / 2,
                w >= 5,
                h >= 5,
                between(x as int, x0 as int, cx as int),
                between(y as int, y0 as int, cy as int),
                between(prev_x as int, x0 as int, cx as int),
                between(prev_y as int, y0 as int, cy as int),
                forall|j: int|
                    0 <= j < path@.len() ==> between((#[trigger] path@[j]).0 as int, x0 as int, cx as int)
                        && between(path@[j].1 as int, y0 as int, cy as int),
            decreases path.len() - k,
        {
            prev_x = x;
            prev_y = y;
            x = path[k].0;
            y = path[k].1;
            k += 1;
        }
        proof {
            crate::map::lemma_index_in_range(w as int, h as int, cx as int, cy as int);
        }
        paint(&mut data.map, prev_x, prev_y);
        walkers += 1;
        floor_tiles = count_floor(&data.map.tiles);
    }
    data.take_snapshot();
    data.map.close_boundary();
    data.take_snapshot();
    proof {
        assert(data.map.at(cx as int, cy as int) == TileType::Floor);
    }
}

} // verus!
