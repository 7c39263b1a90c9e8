use vstd::prelude::*;
use crate::builder::BuilderMap;
use crate::map::{TileMap, lemma_index_decompose, lemma_index_in_range};
use crate::rooms::in_room;
use crate::rect::Rect;
use crate::bsp::rooms_ok;
use crate::map::index_of;
use crate::tiletype::TileType;

verus! {

/// A door fits at `(x, y)`: an inner floor tile with walls on both sides
/// along one axis and floor on both sides along the other.
pub open spec fn door_fits(m: &TileMap, x: int, y: int) -> bool {
    &&& 1 <= x < m.width - 1 && 1 <= y < m.height - 1
    &&& m.at(x, y) == TileType::Floor
    &&& ((m.at(x - 1, y) == TileType::Floor && m.at(x + 1, y) == TileType::Floor && m.at(x, y - 1)
        == TileType::Wall && m.at(x, y + 1) == TileType::Wall) || (m.at(x - 1, y) == TileType::Wall
        && m.at(x + 1, y) == TileType::Wall && m.at(x, y - 1) == TileType::Floor && m.at(x, y + 1)
        == TileType::Floor))
}

/// The indices below `k`, in order, of the tiles where a door fits.
pub open spec fn door_indices(m: &TileMap, k: int) -> Seq<int>
    decreases k,
{
    if k <= 0 {
        Seq::empty()
    } else {
        let w = m.width as int;
        let before = door_indices(m, k - 1);
        if door_fits(m, (k - 1) % w, (k - 1) / w) {
            before.push(k - 1)
        } else {
            before
        }
    }
}

fn door_possible(m: &TileMap, x: i32, y: i32) -> (r: bool)
    requires
        m.wf(),
    ensures
        r == door_fits(m, x as int, y as int),
{
    if x < 1 || x >= m.width - 1 || y < 1 || y >= m.height - 1 {
        return false;
    }
    if m.tiles[m.xy_idx(x, y)] != TileType::Floor {
        return false;
    }
    let w = m.tiles[m.xy_idx(x - 1, y)];
    let e = m.tiles[m.xy_idx(x + 1, y)];
    let n = m.tiles[m.xy_idx(x, y - 1)];
    let s = m.tiles[m.xy_idx(x, y + 1)];
    (w == TileType::Floor && e == TileType::Floor && n == TileType::Wall && s == TileType::Wall)
        || (w == TileType::Wall && e == TileType::Wall && n == TileType::Floor && s == TileType::Floor)
}

/// Adds a door spawn on every tile where one fits, and nowhere else, in
/// index order. The map itself is not changed.
pub fn door_placement(data: &mut BuilderMap)
    requires
        old(data).wf(),
    ensures
        final(data).wf(),
        final(data).map == old(data).map,
        final(data).rooms == old(data).rooms,
        final(data).starting_position == old(data).starting_position,
        final(data).record_history == old(data).record_history,
        final(data).spawn_list@.len() >= old(data).spawn_list@.len(),
        forall|k: int| 0 <= k < old(data).spawn_list@.len() ==> final(data).spawn_list@[k] == old(data).spawn_list@[k],
        forall|k: int|
            old(data).spawn_list@.len() <= k < final(data).spawn_list@.len() ==> {
                let i = (#[trigger] final(data).spawn_list@[k]).0 as int;
                let w = old(data).map.width as int;
                door_fits(&old(data).map, i % w, i / w)
            },
        final(data).spawn_list@.len() == old(data).spawn_list@.len() + door_indices(&old(data).map, old(data).map.tiles@.len() as int).len(),
        forall|j: int|
            0 <= j < door_indices(&old(data).map, old(data).map.tiles@.len() as int).len() ==> final(data).spawn_list@[old(data).spawn_list@.len() + j].0
                == #[trigger] door_indices(&old(data).map, old(data).map.tiles@.len() as int)[j],
{
    let n = data.map.tiles.len();
    let wu = data.map.width as usize;
    let ghost l0 = data.spawn_list@;
    let mut i: usize = 0;
    while i < n
        invariant
            data.wf(),
            data.map == old(data).map,
            data.rooms == old(data).rooms,
            data.starting_position == old(data).starting_position,
            data.record_history == old(data).record_history,
            l0 == old(data).spawn_list@,
            n == data.map.tiles@.len(),
            wu == data.map.width,
            data.spawn_list@.len() >= l0.len(),
            forall|k: int| 0 <= k < l0.len() ==> data.spawn_list@[k] == l0[k],
            forall|k: int|
                l0.len() <= k < data.spawn_list@.len() ==> {
                    let j = (#[trigger] data.spawn_list@[k]).0 as int;
                    j < n && door_fits(&old(data).map, j % (wu as int), j / (wu as int))
                },
            i <= n,
            data.spawn_list@.len() == l0.len() + door_indices(&old(data).map, i as int).len(),
            forall|j: int|
                0 <= j < door_indices(&old(data).map, i as int).len() ==> data.spawn_list@[l0.len() + j].0
                    == #[trigger] door_indices(&old(data).map, i as int)[j],
        decreases n - i,
    {
        proof {
            lemma_index_decompose(wu as int, data.map.height as int, i as int);
        }
        let x = (i % wu) as i32;
        let y = (i / wu) as i32;
        let ghost d0 = door_indices(&old(data).map, i as int);
        assert(door_indices(&old(data).map, i as int + 1) == if door_fits(&old(data).map, (i as int) % (wu as int), (i as int) / (wu as int)) {
            d0.push(i as int)
        } else {
            d0
        });
        if door_possible(&data.map, x, y) {
            data.spawn_list.push((i, "Door".to_string()));
        }
        i += 1;
    }
}

/// A corner tile of a room that is hemmed in by exactly two walls among its
/// four orthogonal neighbours.
pub open spec fn walls_around(m: &TileMap, x: int, y: int) -> int {
    (if m.at(x - 1, y) == TileType::Wall { 1int } else { 0 }) + (if m.at(x + 1, y) == TileType::Wall { 1int } else { 0 })
        + (if m.at(x, y - 1) == TileType::Wall { 1int } else { 0 }) + (if m.at(x, y + 1) == TileType::Wall { 1int } else { 0 })
}

fn count_walls_around(m: &TileMap, x: i32, y: i32) -> (r: u32)
    requires
        m.wf(),
        1 <= x < m.width - 1,
        1 <= y < m.height - 1,
    ensures
        r == walls_around(m, x as int, y as int),
{
    let mut r: u32 = 0;
    if m.tiles[m.xy_idx(x - 1, y)] == TileType::Wall { r += 1; }
    if m.tiles[m.xy_idx(x + 1, y)] == TileType::Wall { r += 1; }
    if m.tiles[m.xy_idx(x, y - 1)] == TileType::Wall { r += 1; }
    if m.tiles[m.xy_idx(x, y + 1)] == TileType::Wall { r += 1; }
    r
}

pub open spec fn wall_at(t: Seq<TileType>, w: int, x: int, y: int) -> int {
    if t[index_of(w, x, y)] == TileType::Wall { 1 } else { 0 }
}

/// The tiles `t` of a `w`-wide map after the corner rule at `(x, y)`: the
/// tile becomes wall when exactly two of its orthogonal neighbours are walls.
pub open spec fn round_corner(t: Seq<TileType>, w: int, x: int, y: int) -> Seq<TileType> {
    if wall_at(t, w, x - 1, y) + wall_at(t, w, x + 1, y) + wall_at(t, w, x, y - 1) + wall_at(t, w, x, y + 1) == 2 {
        t.update(index_of(w, x, y), TileType::Wall)
    } else {
        t
    }
}

/// The corner rule applied to the four corners of room `r`, in the order
/// top left, top right, bottom left, bottom right.
pub open spec fn round_room(t: Seq<TileType>, w: int, r: Rect) -> Seq<TileType> {
    let t1 = round_corner(t, w, r.x1 + 1, r.y1 + 1);
    let t2 = round_corner(t1, w, r.x2 as int, r.y1 + 1);
    let t3 = round_corner(t2, w, r.x1 + 1, r.y2 as int);
    round_corner(t3, w, r.x2 as int, r.y2 as int)
}

/// The first `k` rooms rounded one after another.
pub open spec fn round_rooms(t: Seq<TileType>, w: int, rs: Seq<Rect>, k: int) -> Seq<TileType>
    decreases k,
{
    if k <= 0 {
        t
    } else {
        round_room(round_rooms(t, w, rs, k - 1), w, rs[k - 1])
    }
}

fn fill_if_corner(m: &mut TileMap, x: i32, y: i32)
    requires
        old(m).wf(),
        old(m).closed(),
        1 <= x < old(m).width - 1,
        1 <= y < old(m).height - 1,
    ensures
        final(m).wf(),
        final(m).closed(),
        final(m).width == old(m).width,
        final(m).height == old(m).height,
        final(m).depth == old(m).depth,
        final(m).tiles@ == round_corner(old(m).tiles@, old(m).width as int, x as int, y as int),
{
    let ghost w = m.width as int;
    let c = count_walls_around(m, x, y);
    proof {
        assert(walls_around(m, x as int, y as int) == wall_at(m.tiles@, w, x - 1, y as int) + wall_at(m.tiles@, w, x + 1, y as int)
            + wall_at(m.tiles@, w, x as int, y - 1) + wall_at(m.tiles@, w, x as int, y + 1));
    }
    if c == 2 {
        let idx = m.xy_idx(x, y);
        let ghost before = *m;
        m.tiles.set(idx, TileType::Wall);
        proof {
            assert forall|px: int, py: int|
                #![trigger m.at(px, py)]
                m.in_bounds(px, py) && m.on_edge(px, py) implies m.at(px, py) == TileType::Wall by {
                lemma_index_in_range(w, m.height as int, px, py);
                assert(before.at(px, py) == TileType::Wall);
            }
        }
    }
}

/// Rounds the corners of every room, room by room in order: each corner
/// tile becomes wall when exactly two of its orthogonal neighbours are walls
/// at that moment.
pub fn room_corner_rounding(data: &mut BuilderMap)
    requires
        old(data).wf(),
        old(data).map.closed(),
    ensures
        final(data).wf(),
        final(data).map.closed(),
        final(data).map.width == old(data).map.width,
        final(data).map.height == old(data).map.height,
        final(data).map.depth == old(data).map.depth,
        final(data).rooms == old(data).rooms,
        final(data).spawn_list == old(data).spawn_list,
        final(data).starting_position == old(data).starting_position,
        final(data).record_history == old(data).record_history,
        old(data).rooms is None ==> final(data).map == old(data).map,
        old(data).rooms matches Some(rs) ==> final(data).map.tiles@ == round_rooms(
            old(data).map.tiles@,
            old(data).map.width as int,
            rs@,
            rs@.len() as int,
        ),
{
    let rooms = match &data.rooms {
        Some(rs) => rs.clone(),
        None => {
            return;
        },
    };
    let ghost rs = old(data).rooms->Some_0@;
    proof {
        assert(rooms@ =~= rs);
    }
    let ghost m0 = data.map;
    let ghost w = m0.width as int;
    let mut k: usize = 0;
    while k < rooms.len()
        invariant
            data.wf(),
            data.map.closed(),
            data.map.width == m0.width,
            data.map.height == m0.height,
            data.map.depth == m0.depth,
            m0 == old(data).map,
            w == m0.width,
            data.rooms == old(data).rooms,
            data.spawn_list == old(data).spawn_list,
            data.starting_position == old(data).starting_position,
            data.record_history == old(data).record_history,
            old(data).rooms is Some,
            rooms@ == rs,
            rs == old(data).rooms->Some_0@,
            rooms_ok(rs, m0.width as int, m0.height as int),
            k <= rs.len(),
            data.map.tiles@ == round_rooms(m0.tiles@, w, rs, k as int),
        decreases rooms.len() - k,
    {
        let r = rooms[k];
        proof {
            assert(crate::bsp::room_inside(rs[k as int], m0.width as int, m0.height as int));
        }
        fill_if_corner(&mut data.map, r.x1 + 1, r.y1 + 1);
        fill_if_corner(&mut data.map, r.x2, r.y1 + 1);
        fill_if_corner(&mut data.map, r.x1 + 1, r.y2);
        fill_if_corner(&mut data.map, r.x2, r.y2);
        k += 1;
    }
}

} // verus!
