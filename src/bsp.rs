use vstd::prelude::*;
use bracket_random::prelude::RandomNumberGenerator;
use crate::builder::BuilderMap;
use crate::random::roll_dice;
use crate::rect::Rect;
use crate::tiletype::TileType;

verus! {

/// Attempts at placing a room.
pub const ROOM_ATTEMPTS: usize = 240;

/// `r` lies at least three tiles in from every edge of a `w` by `h` map.
pub open spec fn room_inside(r: Rect, w: int, h: int) -> bool {
    3 <= r.x1 <= r.x2 <= w - 4 && 3 <= r.y1 <= r.y2 <= h - 4
}

pub open spec fn rects_overlap(a: Rect, b: Rect) -> bool {
    a.x1 <= b.x2 && a.x2 >= b.x1 && a.y1 <= b.y2 && a.y2 >= b.y1
}

/// Rooms inside the map, no two of them touching.
pub open spec fn rooms_ok(rooms: Seq<Rect>, w: int, h: int) -> bool {
    &&& forall|i: int| 0 <= i < rooms.len() ==> room_inside(#[trigger] rooms[i], w, h)
    &&& forall|i: int, j: int| 0 <= i < j < rooms.len() ==> !rects_overlap(#[trigger] rooms[i], #[trigger] rooms[j])
}

/// Rectangles the partition works with: inside the map's box.
spec fn rect_ok(r: Rect, w: int, h: int) -> bool {
    0 <= r.x1 <= r.x2 <= w && 0 <= r.y1 <= r.y2 <= h
}

fn push_if_inside(rects: &mut Vec<Rect>, r: Rect, w: i32, h: i32)
    requires
        forall|i: int| 0 <= i < old(rects)@.len() ==> rect_ok(#[trigger] old(rects)@[i], w as int, h as int),
    ensures
        old(rects)@.len() <= final(rects)@.len() <= old(rects)@.len() + 1,
        forall|i: int| 0 <= i < final(rects)@.len() ==> rect_ok(#[trigger] final(rects)@[i], w as int, h as int),
{
    if 0 <= r.x1 && r.x1 <= r.x2 && r.x2 <= w && 0 <= r.y1 && r.y1 <= r.y2 && r.y2 <= h {
        rects.push(r);
    }
}

/// Splits `rect` into four quarters (each at least one tile across) and
/// keeps those that stay inside the map.
fn add_subrects(rects: &mut Vec<Rect>, rect: Rect, w: i32, h: i32)
    requires
        rect_ok(rect, w as int, h as int),
        0 < w <= 500000000,
        0 < h <= 500000000,
        forall|i: int| 0 <= i < old(rects)@.len() ==> rect_ok(#[trigger] old(rects)@[i], w as int, h as int),
    ensures
        old(rects)@.len() <= final(rects)@.len() <= old(rects)@.len() + 4,
        forall|i: int| 0 <= i < final(rects)@.len() ==> rect_ok(#[trigger] final(rects)@[i], w as int, h as int),
{
    let width = rect.x2 - rect.x1;
    let height = rect.y2 - rect.y1;
    let half_width = if width / 2 > 1 { width / 2 } else { 1 };
    let half_height = if height / 2 > 1 { height / 2 } else { 1 };
    push_if_inside(rects, Rect { x1: rect.x1, y1: rect.y1, x2: rect.x1 + half_width, y2: rect.y1 + half_height }, w, h);
    push_if_inside(rects, Rect { x1: rect.x1, y1: rect.y1 + half_height, x2: rect.x1 + half_width, y2: rect.y1 + 2 * half_height }, w, h);
    push_if_inside(rects, Rect { x1: rect.x1 + half_width, y1: rect.y1, x2: rect.x1 + 2 * half_width, y2: rect.y1 + half_height }, w, h);
    push_if_inside(rects, Rect { x1: rect.x1 + half_width, y1: rect.y1 + half_height, x2: rect.x1 + 2 * half_width, y2: rect.y1 + 2 * half_height }, w, h);
}

/// A room may go at `r`: it touches no room placed so far, and the box two
/// tiles wider on every side lies inside the ring and holds only wall.
fn is_possible(data: &BuilderMap, rooms: &Vec<Rect>, r: Rect) -> (ok: bool)
    requires
        data.wf(),
        0 <= r.x1 <= r.x2 <= data.map.width,
        0 <= r.y1 <= r.y2 <= data.map.height,
        data.map.width <= 500000000,
        data.map.height <= 500000000,
    ensures
        ok ==> room_inside(r, data.map.width as int, data.map.height as int),
        ok ==> forall|i: int| 0 <= i < rooms@.len() ==> !rects_overlap(r, #[trigger] rooms@[i]),
{
    let w = data.map.width;
    let h = data.map.height;
    let mut i: usize = 0;
    while i < rooms.len()
        invariant
            i <= rooms@.len(),
            forall|j: int| 0 <= j < i ==> !rects_overlap(r, #[trigger] rooms@[j]),
        decreases rooms.len() - i,
    {
        if r.intersect(&rooms[i]) {
            return false;
        }
        i += 1;
    }
    let x1 = r.x1 - 2;
    let x2 = r.x2 + 2;
    let y1 = r.y1 - 2;
    let y2 = r.y2 + 2;
    if x1 < 1 || x2 > w - 2 || y1 < 1 || y2 > h - 2 {
        return false;
    }
    let mut y = y1;
    while y <= y2
        invariant
            data.wf(),
            1 <= y1 <= y <= y2 + 1,
            y2 <= data.map.height - 2,
            1 <= x1 <= x2 <= data.map.width - 2,
        decreases y2 + 1 - y,
    {
        let mut x = x1;
        while x <= x2
            invariant
                data.wf(),
                1 <= y1 <= y <= y2,
                y2 <= data.map.height - 2,
                1 <= x1 <= x <= x2 + 1,
                x2 <= data.map.width - 2,
            decreases x2 + 1 - x,
        {
            let idx = data.map.xy_idx(x, y);
            if data.map.tiles[idx] != TileType::Wall {
                return false;
            }
            x += 1;
        }
        y += 1;
    }
    true
}

/// Binary space partition: repeatedly picks one of the rectangles made so
/// far, tries a room of 3 to 10 tiles a side near its corner, and on success
/// keeps the room and splits the rectangle into quarters. Records the rooms;
/// the map is not touched.
pub fn bsp_dungeon(data: &mut BuilderMap, rng: &mut RandomNumberGenerator)
    requires
        old(data).wf(),
    ensures
        final(data).wf(),
        final(data).map == old(data).map,
        final(data).spawn_list == old(data).spawn_list,
        final(data).starting_position == old(data).starting_position,
        final(data).record_history == old(data).record_history,
        final(data).rooms matches Some(rs) && rooms_ok(rs@, old(data).map.width as int, old(data).map.height as int),
{
    let w = data.map.width;
    let h = data.map.height;
    let mut rooms: Vec<Rect> = Vec::new();
    if w < 8 || h < 8 {
        data.rooms = Some(rooms);
        return;
    }
    proof {
        assert(w <= 500000000 && h <= 500000000) by (nonlinear_arith)
            requires w * h <= i32::MAX, w >= 8, h >= 8;
    }
    let mut rects: Vec<Rect> = Vec::new();
    let first = Rect { x1: 2, y1: 2, x2: w - 3, y2: h - 3 };
    rects.push(first);
    add_subrects(&mut rects, first, w, h);
    let mut attempts: usize = 0;
    while attempts < ROOM_ATTEMPTS
        invariant
            data.wf(),
            data.map == old(data).map,
            data.spawn_list == old(data).spawn_list,
            data.starting_position == old(data).starting_position,
            data.record_history == old(data).record_history,
            w == data.map.width,
            h == data.map.height,
            w >= 8,
            h >= 8,
            w <= 500000000,
            h <= 500000000,
            1 <= rects@.len() <= 5 + 4 * attempts,
            attempts <= ROOM_ATTEMPTS,
            forall|i: int| 0 <= i < rects@.len() ==> rect_ok(#[trigger] rects@[i], w as int, h as int),
            rooms_ok(rooms@, w as int, h as int),
        decreases ROOM_ATTEMPTS - attempts,
    {
        let pick = (roll_dice(rng, 1, rects.len() as i32) - 1) as usize;
        let rect = rects[pick];
        let rect_width = rect.x2 - rect.x1;
        let rect_height = rect.y2 - rect.y1;
        if rect_width >= 1 && rect_height >= 1 {
            let rw = roll_dice(rng, 1, if rect_width < 10 { rect_width } else { 10 }) - 1;
            let rh = roll_dice(rng, 1, if rect_height < 10 { rect_height } else { 10 }) - 1;
            let room_w = (if rw > 3 { rw } else { 3 }) + 1;
            let room_h = (if rh > 3 { rh } else { 3 }) + 1;
            let x1 = rect.x1 + roll_dice(rng, 1, 6) - 1;
            let y1 = rect.y1 + roll_dice(rng, 1, 6) - 1;
            let candidate = Rect { x1, y1, x2: x1 + room_w, y2: y1 + room_h };
            if candidate.x2 <= w && candidate.y2 <= h && is_possible(data, &rooms, candidate) {
                proof {
                    assert forall|i: int, j: int| 0 <= i < j < rooms@.push(candidate).len() implies !rects_overlap(
                        #[trigger] rooms@.push(candidate)[i],
                        #[trigger] rooms@.push(candidate)[j],
                    ) by {
                        if j == rooms@.len() {
                            assert(!rects_overlap(candidate, rooms@[i]));
                        }
                    }
                }
                rooms.push(candidate);
                add_subrects(&mut rects, rect, w, h);
            }
        }
        attempts += 1;
    }
    data.rooms = Some(rooms);
}

} // verus!
