use vstd::prelude::*;
use crate::area::dist2;
use crate::bsp::{rooms_ok, rects_overlap, room_inside};
use crate::builder::BuilderMap;
use crate::rect::Rect;

verus! {

/// How far the middle of room `r` lies from the middle of a `w` by `h`
/// map, squared.
pub open spec fn central_key(r: Rect, w: int, h: int) -> int {
    dist2((r.x1 + r.x2) / 2, (r.y1 + r.y2) / 2, w / 2, h / 2)
}

pub open spec fn sorted_by_centre(rs: Seq<Rect>, w: int, h: int) -> bool {
    forall|a: int, b: int| 0 <= a < b < rs.len() ==> central_key(#[trigger] rs[a], w, h) <= central_key(#[trigger] rs[b], w, h)
}

fn key_of(r: Rect, w: i32, h: i32) -> (k: i64)
    requires
        room_inside(r, w as int, h as int),
    ensures
        k == central_key(r, w as int, h as int),
{
    let cx = (r.x1 as i64 + r.x2 as i64) / 2;
    let cy = (r.y1 as i64 + r.y2 as i64) / 2;
    let dx = cx - (w / 2) as i64;
    let dy = cy - (h / 2) as i64;
    proof {
        assert(0 <= dx * dx <= 0x3fff_ffff_0000_0001) by (nonlinear_arith)
            requires -0x7fff_ffff <= dx <= 0x7fff_ffff;
        assert(0 <= dy * dy <= 0x3fff_ffff_0000_0001) by (nonlinear_arith)
            requires -0x7fff_ffff <= dy <= 0x7fff_ffff;
    }
    dx * dx + dy * dy
}

proof fn lemma_overlap_symmetric(a: Rect, b: Rect)
    ensures
        rects_overlap(a, b) == rects_overlap(b, a),
{
}

/// Orders the rooms from the middle of the map outwards; rooms equally far
/// keep their order.
pub fn sort_rooms_central(data: &mut BuilderMap)
    requires
        old(data).wf(),
    ensures
        final(data).wf(),
        final(data).map == old(data).map,
        final(data).spawn_list == old(data).spawn_list,
        final(data).starting_position == old(data).starting_position,
        final(data).corridors == old(data).corridors,
        final(data).record_history == old(data).record_history,
        old(data).rooms is None ==> final(data).rooms is None,
        old(data).rooms matches Some(rs) ==> final(data).rooms matches Some(out) && out@.to_multiset()
            == rs@.to_multiset() && sorted_by_centre(out@, old(data).map.width as int, old(data).map.height as int),
{
    let mut rooms = match data.rooms.take() {
        Some(rs) => rs,
        None => {
            return;
        },
    };
    let w = data.map.width;
    let h = data.map.height;
    let ghost r0 = rooms@;
    let n = rooms.len();
    let mut i: usize = 1;
    while i < n
        invariant
            n == rooms@.len(),
            1 <= i || n == 0,
            rooms_ok(rooms@, w as int, h as int),
            rooms@.to_multiset() == r0.to_multiset(),
            forall|a: int, b: int| 0 <= a < b < i && b < n ==> central_key(#[trigger] rooms@[a], w as int, h as int) <= central_key(#[trigger] rooms@[b], w as int, h as int),
        decreases n - i,
    {
        let mut j: usize = i;
        while j > 0 && key_of(rooms[j - 1], w, h) > key_of(rooms[j], w, h)
            invariant
                n == rooms@.len(),
                i < n,
                j <= i,
                rooms_ok(rooms@, w as int, h as int),
                rooms@.to_multiset() == r0.to_multiset(),
                forall|a: int, b: int|
                    0 <= a < b <= i && a != j && b != j ==> central_key(#[trigger] rooms@[a], w as int, h as int) <= central_key(#[trigger] rooms@[b], w as int, h as int),
                forall|b: int| j < b <= i ==> central_key(rooms@[j as int], w as int, h as int) < central_key(#[trigger] rooms@[b], w as int, h as int),
            decreases j,
        {
            let x = rooms[j];
            let y = rooms[j - 1];
            let ghost before = rooms@;
            rooms.set(j - 1, x);
            rooms.set(j, y);
            proof {
                vstd::seq_lib::to_multiset_update(before, j - 1, x);
                vstd::seq_lib::to_multiset_update(before.update(j - 1, x), j as int, y);
                broadcast use vstd::multiset::group_multiset_axioms, vstd::seq_lib::to_multiset_contains;
                assert(before.contains(y));
                assert(before.to_multiset().count(y) > 0);
                assert(rooms@.to_multiset() =~= before.to_multiset());
                let s = rooms@;
                assert forall|p: int, q: int| 0 <= p < q < s.len() implies !rects_overlap(#[trigger] s[p], #[trigger] s[q]) by {
                    let op = if p == j - 1 { j as int } else if p == j { j - 1 } else { p };
                    let oq = if q == j - 1 { j as int } else if q == j { j - 1 } else { q };
                    assert(s[p] == before[op] && s[q] == before[oq]);
                    if op < oq {
                        assert(!rects_overlap(before[op], before[oq]));
                    } else {
                        assert(!rects_overlap(before[oq], before[op]));
                        lemma_overlap_symmetric(before[op], before[oq]);
                    }
                }
                assert forall|k: int| 0 <= k < s.len() implies room_inside(#[trigger] s[k], w as int, h as int) by {
                    let ok = if k == j - 1 { j as int } else if k == j { j - 1 } else { k };
                    assert(s[k] == before[ok]);
                }
            }
            j -= 1;
        }
        i += 1;
    }
    data.rooms = Some(rooms);
}

} // verus!
