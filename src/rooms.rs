use vstd::prelude::*;
use bracket_random::prelude::RandomNumberGenerator;
use crate::bsp::{rooms_ok, room_inside};
use crate::builder::BuilderMap;
use crate::fov::Point;
use crate::lines::between;
use crate::map::{TileMap, lemma_index_coords, lemma_index_in_range, lemma_index_injective, index_of};
use crate::random::roll_dice;
use crate::rect::Rect;
use crate::tiletype::TileType;

verus! {

/// `(x, y)` is one of the tiles a room is carved into: right of its left
/// edge and below its top edge, up to and including its far edges.
pub open spec fn in_room(r: Rect, x: int, y: int) -> bool {
    r.x1 < x <= r.x2 && r.y1 < y <= r.y2
}

/// Turns the tiles of room `r` into floor.
pub fn carve_room(m: &mut TileMap, r: Rect)
    requires
        old(m).wf(),
        old(m).closed(),
        room_inside(r, old(m).width as int, old(m).height as int),
    ensures
        final(m).wf(),
        final(m).closed(),
        final(m).width == old(m).width,
        final(m).height == old(m).height,
        final(m).depth == old(m).depth,
        forall|x: int, y: int|
            #![trigger final(m).at(x, y)]
            old(m).in_bounds(x, y) ==> final(m).at(x, y) == (if in_room(r, x, y) {
                TileType::Floor
            } else {
                old(m).at(x, y)
            }),
{
    let n = m.tiles.len();
    let w = m.width as usize;
    let ghost t0 = m.tiles@;
    let ghost wi = m.width as int;
    let mut i: usize = 0;
    while i < n
        invariant
            m.wf(),
            m.width == old(m).width,
            m.height == old(m).height,
            m.depth == old(m).depth,
            t0 == old(m).tiles@,
            n == t0.len(),
            m.tiles@.len() == n,
            w == m.width,
            wi == m.width,
            i <= n,
            room_inside(r, old(m).width as int, old(m).height as int),
            forall|j: int|
                0 <= j < n ==> #[trigger] m.tiles@[j] == (if j < i && in_room(r, j % wi, j / wi) {
                    TileType::Floor
                } else {
                    t0[j]
                }),
        decreases n - i,
    {
        let x = (i % w) as i64;
        let y = (i / w) as i64;
        if (r.x1 as i64) < x && x <= r.x2 as i64 && (r.y1 as i64) < y && y <= r.y2 as i64 {
            m.tiles.set(i, TileType::Floor);
        }
        i += 1;
    }
    proof {
        assert forall|x: int, y: int|
            #![trigger m.at(x, y)]
            old(m).in_bounds(x, y) implies m.at(x, y) == (if in_room(r, x, y) {
                TileType::Floor
            } else {
                old(m).at(x, y)
            }) by {
            lemma_index_in_range(wi, m.height as int, x, y);
            lemma_index_coords(wi, x, y);
        }
        assert forall|x: int, y: int|
            #![trigger m.at(x, y)]
            m.in_bounds(x, y) && m.on_edge(x, y) implies m.at(x, y) == TileType::Wall by {
            lemma_index_in_range(wi, m.height as int, x, y);
            lemma_index_coords(wi, x, y);
            assert(old(m).at(x, y) == TileType::Wall);
        }
    }
}

/// Carves every recorded room into the map.
pub fn room_drawer(data: &mut BuilderMap)
    requires
        old(data).wf(),
        old(data).map.closed(),
        old(data).rooms matches Some(rs) && rooms_ok(rs@, old(data).map.width as int, old(data).map.height as int),
    ensures
        final(data).wf(),
        final(data).map.closed(),
        final(data).map.width == old(data).map.width,
        final(data).map.height == old(data).map.height,
        final(data).map.depth == old(data).map.depth,
        final(data).rooms == old(data).rooms,
        final(data).spawn_list == old(data).spawn_list,
        final(data).starting_position == old(data).starting_position,
        final(data).record_history == old(data).record_history,
        forall|x: int, y: int|
            #![trigger final(data).map.at(x, y)]
            old(data).map.in_bounds(x, y) ==> final(data).map.at(x, y) == (if exists|k: int|
                0 <= k < old(data).rooms->Some_0@.len() && in_room(#[trigger] old(data).rooms->Some_0@[k], x, y) {
                TileType::Floor
            } else {
                old(data).map.at(x, y)
            }),
{
    let rooms = match &data.rooms {
        Some(rs) => rs.clone(),
        None => Vec::new(),
    };
    let ghost rs = old(data).rooms->Some_0@;
    proof {
        assert(rooms@ =~= rs);
    }
    let ghost m0 = data.map;
    let mut k: usize = 0;
    while k < rooms.len()
        invariant
            data.wf(),
            data.map.closed(),
            data.map.width == m0.width,
            data.map.height == m0.height,
            data.map.depth == m0.depth,
            m0 == old(data).map,
            data.rooms == old(data).rooms,
            data.spawn_list == old(data).spawn_list,
            data.starting_position == old(data).starting_position,
            data.record_history == old(data).record_history,
            rooms@ == rs,
            rooms_ok(rs, m0.width as int, m0.height as int),
            k <= rs.len(),
            forall|x: int, y: int|
                #![trigger data.map.at(x, y)]
                m0.in_bounds(x, y) ==> data.map.at(x, y) == (if exists|j: int| 0 <= j < k && in_room(#[trigger] rs[j], x, y) {
                    TileType::Floor
                } else {
                    m0.at(x, y)
                }),
        decreases rooms.len() - k,
    {
        let ghost before = data.map;
        carve_room(&mut data.map, rooms[k]);
        proof {
            assert forall|x: int, y: int|
                #![trigger data.map.at(x, y)]
                m0.in_bounds(x, y) implies data.map.at(x, y) == (if exists|j: int| 0 <= j < k + 1 && in_room(#[trigger] rs[j], x, y) {
                    TileType::Floor
                } else {
                    m0.at(x, y)
                }) by {
                assert(before.at(x, y) == before.at(x, y));
                if in_room(rs[k as int], x, y) {
                    assert(0 <= k < k + 1 && in_room(rs[k as int], x, y));
                } else if exists|j: int| 0 <= j < k + 1 && in_room(#[trigger] rs[j], x, y) {
                    let j = choose|j: int| 0 <= j < k + 1 && in_room(#[trigger] rs[j], x, y);
                    assert(j < k);
                }
            }
        }
        k += 1;
    }
}

/// Walks from `(x1, y1)` to `(x2, y2)`, first along the row and then along
/// the column, turning what it steps on into floor. Returns the tiles it
/// changed.
pub fn draw_corridor(m: &mut TileMap, x1: i32, y1: i32, x2: i32, y2: i32) -> (r: Vec<usize>)
    requires
        old(m).wf(),
        old(m).closed(),
        1 <= x1 < old(m).width - 1,
        1 <= x2 < old(m).width - 1,
        1 <= y1 < old(m).height - 1,
        1 <= y2 < old(m).height - 1,
    ensures
        final(m).wf(),
        final(m).closed(),
        final(m).width == old(m).width,
        final(m).height == old(m).height,
        final(m).depth == old(m).depth,
        final(m).at(x2 as int, y2 as int) == TileType::Floor || (x1 == x2 && y1 == y2),
        forall|x: int, y: int|
            #![trigger final(m).at(x, y)]
            old(m).in_bounds(x, y) ==> final(m).at(x, y) == old(m).at(x, y) || (final(m).at(x, y)
                == TileType::Floor && between(x, x1 as int, x2 as int) && between(y, y1 as int, y2 as int)),
        forall|k: int| 0 <= k < r@.len() ==> #[trigger] r@[k] < final(m).tiles@.len(),
{
    let mut corridor: Vec<usize> = Vec::new();
    let mut x = x1;
    let mut y = y1;
    let ghost m0 = *m;
    let ghost wi = m.width as int;
    while x != x2 || y != y2
        invariant
            m.wf(),
            m.width == m0.width,
            m.height == m0.height,
            m.depth == m0.depth,
            m0 == *old(m),
            wi == m.width,
            m0.closed(),
            1 <= x1 < m.width - 1,
            1 <= x2 < m.width - 1,
            1 <= y1 < m.height - 1,
            1 <= y2 < m.height - 1,
            between(x as int, x1 as int, x2 as int),
            between(y as int, y1 as int, y2 as int),
            y != y1 ==> x == x2,
            (x != x1 || y != y1) ==> m.at(x as int, y as int) == TileType::Floor,
            forall|px: int, py: int|
                #![trigger m.at(px, py)]
                m0.in_bounds(px, py) ==> m.at(px, py) == m0.at(px, py) || (m.at(px, py) == TileType::Floor
                    && between(px, x1 as int, x2 as int) && between(py, y1 as int, y2 as int)),
            forall|k: int| 0 <= k < corridor@.len() ==> #[trigger] corridor@[k] < m.tiles@.len(),
        decreases (if x2 >= x { x2 - x } else { x - x2 }) + (if y2 >= y { y2 - y } else { y - y2 }),
    {
        let ghost mp = *m;
        if x < x2 {
            x += 1;
        } else if x > x2 {
            x -= 1;
        } else if y < y2 {
            y += 1;
        } else {
            y -= 1;
        }
        let idx = m.xy_idx(x, y);
        if m.tiles[idx] != TileType::Floor {
            corridor.push(idx);
            m.tiles.set(idx, TileType::Floor);
        }
        proof {
            assert forall|px: int, py: int|
                #![trigger m.at(px, py)]
                m0.in_bounds(px, py) implies m.at(px, py) == m0.at(px, py) || (m.at(px, py) == TileType::Floor
                    && between(px, x1 as int, x2 as int) && between(py, y1 as int, y2 as int)) by {
                lemma_index_in_range(wi, m.height as int, px, py);
                assert(mp.at(px, py) == m0.at(px, py) || (mp.at(px, py) == TileType::Floor
                    && between(px, x1 as int, x2 as int) && between(py, y1 as int, y2 as int)));
                if index_of(wi, px, py) == idx {
                    lemma_index_injective(wi, px, py, x as int, y as int);
                } else {
                    assert(m.at(px, py) == mp.at(px, py));
                }
            }
        }
    }
    proof {
        assert forall|px: int, py: int|
            #![trigger m.at(px, py)]
            m.in_bounds(px, py) && m.on_edge(px, py) implies m.at(px, py) == TileType::Wall by {
            assert(m0.at(px, py) == TileType::Wall);
        }
    }
    corridor
}

fn pick_in(rng: &mut RandomNumberGenerator, lo: i32, hi: i32) -> (r: i32)
    requires
        lo <= hi,
        hi - lo < i32::MAX,
    ensures
        lo <= r <= hi,
{
    let span = hi - lo;
    let die = if span > 0 { span } else { 1 };
    let roll = roll_dice(rng, 1, die) - 1;
    if roll > span {
        lo
    } else {
        lo + roll
    }
}

/// Joins each room to the next one in order with a corridor between random
/// points of the two, and records the corridors.
pub fn bsp_corridors(data: &mut BuilderMap, rng: &mut RandomNumberGenerator)
    requires
        old(data).wf(),
        old(data).map.closed(),
        old(data).rooms matches Some(rs) && rooms_ok(rs@, old(data).map.width as int, old(data).map.height as int),
    ensures
        final(data).wf(),
        final(data).map.closed(),
        final(data).map.width == old(data).map.width,
        final(data).map.height == old(data).map.height,
        final(data).map.depth == old(data).map.depth,
        final(data).rooms == old(data).rooms,
        final(data).spawn_list == old(data).spawn_list,
        final(data).starting_position == old(data).starting_position,
        final(data).record_history == old(data).record_history,
        final(data).corridors matches Some(cs) && cs@.len() == (if old(data).rooms->Some_0@.len() == 0 {
            0
        } else {
            old(data).rooms->Some_0@.len() - 1
        }),
{
    let rooms = match &data.rooms {
        Some(rs) => rs.clone(),
        None => Vec::new(),
    };
    let ghost rs = old(data).rooms->Some_0@;
    proof {
        assert(rooms@ =~= rs);
    }
    let mut corridors: Vec<Vec<usize>> = Vec::new();
    let mut i: usize = 0;
    while i + 1 < rooms.len()
        invariant
            data.wf(),
            data.map.closed(),
            data.map.width == old(data).map.width,
            data.map.height == old(data).map.height,
            data.map.depth == old(data).map.depth,
            data.rooms == old(data).rooms,
            data.spawn_list == old(data).spawn_list,
            data.starting_position == old(data).starting_position,
            data.record_history == old(data).record_history,
            rooms@ == rs,
            rooms_ok(rs, data.map.width as int, data.map.height as int),
            corridors@.len() == i,
            i == 0 || i < rooms@.len(),
        decreases rooms.len() - i,
    {
        let room = rooms[i];
        let next = rooms[i + 1];
        proof {
            assert(room_inside(rs[i as int], data.map.width as int, data.map.height as int));
            assert(room_inside(rs[i + 1], data.map.width as int, data.map.height as int));
        }
        let sx = pick_in(rng, room.x1, room.x2);
        let sy = pick_in(rng, room.y1, room.y2);
        let ex = pick_in(rng, next.x1, next.x2);
        let ey = pick_in(rng, next.y1, next.y2);
        let c = draw_corridor(&mut data.map, sx, sy, ex, ey);
        corridors.push(c);
        i += 1;
    }
    data.corridors = Some(corridors);
}

/// Starts the player in the middle of the first room.
pub fn room_based_starting_position(data: &mut BuilderMap)
    requires
        old(data).wf(),
        old(data).rooms matches Some(rs) && rooms_ok(rs@, old(data).map.width as int, old(data).map.height as int),
    ensures
        final(data).wf(),
        final(data).map == old(data).map,
        final(data).rooms == old(data).rooms,
        final(data).spawn_list == old(data).spawn_list,
        final(data).record_history == old(data).record_history,
        old(data).rooms->Some_0@.len() == 0 ==> final(data).starting_position == old(data).starting_position,
        old(data).rooms->Some_0@.len() > 0 ==> {
            let r = old(data).rooms->Some_0@[0];
            final(data).starting_position == Some(Point { x: ((r.x1 + r.x2) / 2) as i32, y: ((r.y1 + r.y2) / 2) as i32 })
        },
{
    let first = match &data.rooms {
        Some(rs) => if rs.len() > 0 { Some(rs[0]) } else { None },
        None => None,
    };
    match first {
        Some(r) => {
            let (cx, cy) = r.center();
            data.starting_position = Some(Point { x: cx, y: cy });
        },
        None => {},
    }
}

} // verus!
