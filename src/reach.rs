use vstd::prelude::*;
use vstd::set_lib::{set_int_range, lemma_int_range, lemma_len_subset};
use crate::map::{TileMap, index_of, lemma_index_decompose, lemma_index_injective};
use crate::tiletype::{TileType, walkable, opaque};

verus! {

/// Distance of a tile that no walk reaches.
pub const UNREACHED: u64 = 18446744073709551615;

/// Cost of an orthogonal step.
pub const STRAIGHT_COST: u64 = 100;

/// Cost of a diagonal step (about `STRAIGHT_COST` times the square root of two).
pub const DIAGONAL_COST: u64 = 141;

pub open spec fn adjacent(ax: int, ay: int, bx: int, by: int) -> bool {
    -1 <= bx - ax <= 1 && -1 <= by - ay <= 1 && !(ax == bx && ay == by)
}

/// One move from `(ax, ay)` onto the walkable neighbour `(bx, by)`. A diagonal
/// move may not squeeze between two opaque tiles.
pub open spec fn step(m: &TileMap, ax: int, ay: int, bx: int, by: int) -> bool {
    &&& m.in_bounds(ax, ay)
    &&& m.in_bounds(bx, by)
    &&& adjacent(ax, ay, bx, by)
    &&& walkable(m.at(bx, by))
    &&& (ax == bx || ay == by || !(opaque(m.at(bx, ay)) && opaque(m.at(ax, by))))
}

pub open spec fn step_cost(ax: int, ay: int, bx: int, by: int) -> int {
    if ax == bx || ay == by {
        STRAIGHT_COST as int
    } else {
        DIAGONAL_COST as int
    }
}

/// `path` starts at `(sx, sy)`, ends at `(tx, ty)` and each point of it is one
/// step from the one before.
pub open spec fn is_walk(m: &TileMap, path: Seq<(int, int)>, sx: int, sy: int, tx: int, ty: int) -> bool {
    &&& path.len() >= 1
    &&& m.in_bounds(sx, sy)
    &&& path[0] == (sx, sy)
    &&& path.last() == (tx, ty)
    &&& forall|k: int|
        #![trigger path[k + 1]]
        0 <= k < path.len() - 1 ==> step(m, path[k].0, path[k].1, path[k + 1].0, path[k + 1].1)
}

/// Sum of the step costs along `path`.
pub open spec fn path_cost(path: Seq<(int, int)>) -> int
    decreases path.len(),
{
    if path.len() <= 1 {
        0
    } else {
        let a = path[path.len() - 2];
        let b = path.last();
        path_cost(path.drop_last()) + step_cost(a.0, a.1, b.0, b.1)
    }
}

pub open spec fn reachable(m: &TileMap, sx: int, sy: int, tx: int, ty: int) -> bool {
    exists|path: Seq<(int, int)>| is_walk(m, path, sx, sy, tx, ty)
}

/// Every finite distance in `d` is the cost of some walk from the start.
pub open spec fn realized(m: &TileMap, sx: int, sy: int, d: Seq<u64>) -> bool {
    forall|x: int, y: int|
        #![trigger d[index_of(m.width as int, x, y)]]
        m.in_bounds(x, y) && d[index_of(m.width as int, x, y)] != UNREACHED ==> exists|path: Seq<(int, int)>|
            is_walk(m, path, sx, sy, x, y) && path_cost(path) == d[index_of(m.width as int, x, y)] as int
}

/// A step never leads from a reached tile to an unreached one.
pub open spec fn closed_under_steps(m: &TileMap, d: Seq<u64>) -> bool {
    forall|px: int, py: int, qx: int, qy: int|
        #![trigger step(m, px, py, qx, qy)]
        step(m, px, py, qx, qy) && d[index_of(m.width as int, px, py)] != UNREACHED
            ==> d[index_of(m.width as int, qx, qy)] != UNREACHED
}

spec fn settled_closed(m: &TileMap, d: Seq<u64>, done: Seq<bool>) -> bool {
    forall|px: int, py: int, qx: int, qy: int|
        #![trigger step(m, px, py, qx, qy)]
        step(m, px, py, qx, qy) && done[index_of(m.width as int, px, py)]
            ==> d[index_of(m.width as int, qx, qy)] != UNREACHED
}

/// No step out of a settled tile leads somewhere cheaper than going through it.
spec fn settled_tight(m: &TileMap, d: Seq<u64>, done: Seq<bool>) -> bool {
    forall|px: int, py: int, qx: int, qy: int|
        #![trigger step(m, px, py, qx, qy)]
        step(m, px, py, qx, qy) && done[index_of(m.width as int, px, py)]
            ==> d[index_of(m.width as int, qx, qy)] <= d[index_of(m.width as int, px, py)] + step_cost(px, py, qx, qy)
}

/// No step leads from a reached tile to one whose distance exceeds the
/// distance there plus the cost of the step.
pub open spec fn tight(m: &TileMap, d: Seq<u64>) -> bool {
    forall|px: int, py: int, qx: int, qy: int|
        #![trigger step(m, px, py, qx, qy)]
        step(m, px, py, qx, qy) && d[index_of(m.width as int, px, py)] != UNREACHED
            ==> d[index_of(m.width as int, qx, qy)] <= d[index_of(m.width as int, px, py)] + step_cost(px, py, qx, qy)
}

/// `c` is the least cost of a walk from `(sx, sy)` to `(x, y)`.
pub open spec fn shortest(m: &TileMap, sx: int, sy: int, x: int, y: int, c: int) -> bool {
    &&& exists|path: Seq<(int, int)>| is_walk(m, path, sx, sy, x, y) && path_cost(path) == c
    &&& forall|path: Seq<(int, int)>| is_walk(m, path, sx, sy, x, y) ==> c <= path_cost(path)
}

/// In a tight field with the start at zero, no walk is cheaper than the
/// distance of the tile it ends on.
pub proof fn lemma_walk_cost_bounds(m: &TileMap, d: Seq<u64>, path: Seq<(int, int)>, sx: int, sy: int, x: int, y: int, k: int)
    requires
        m.wf(),
        d.len() == m.tiles@.len(),
        d[index_of(m.width as int, sx, sy)] == 0,
        tight(m, d),
        is_walk(m, path, sx, sy, x, y),
        0 <= k < path.len(),
    ensures
        d[index_of(m.width as int, path[k].0, path[k].1)] <= path_cost(path.take(k + 1)),
    decreases k,
{
    if k == 0 {
        assert(path.take(1).len() == 1);
    } else {
        lemma_walk_cost_bounds(m, d, path, sx, sy, x, y, k - 1);
        let (px, py) = path[k - 1];
        let (qx, qy) = path[k];
        assert(step(m, px, py, path[(k - 1) + 1].0, path[(k - 1) + 1].1));
        let t = path.take(k + 1);
        assert(t.drop_last() =~= path.take(k));
        assert(t[t.len() - 2] == path[k - 1]);
        assert(t.last() == path[k]);
        assert(path_cost(t) == path_cost(path.take(k)) + step_cost(px, py, qx, qy));
    }
}

spec fn done_set(done: Seq<bool>) -> Set<int> {
    Set::new(|i: int| 0 <= i < done.len() && done[i])
}

/// A walk followed by one more step is a walk.
pub proof fn lemma_walk_extend(m: &TileMap, path: Seq<(int, int)>, sx: int, sy: int, px: int, py: int, qx: int, qy: int)
    requires
        is_walk(m, path, sx, sy, px, py),
        step(m, px, py, qx, qy),
    ensures
        is_walk(m, path.push((qx, qy)), sx, sy, qx, qy),
        path_cost(path.push((qx, qy))) == path_cost(path) + step_cost(px, py, qx, qy),
{
    let p2 = path.push((qx, qy));
    assert(p2.drop_last() =~= path);
    assert forall|k: int| 0 <= k < p2.len() - 1 implies step(m, p2[k].0, p2[k].1, #[trigger] p2[k + 1].0, p2[k + 1].1) by {
        if k < path.len() - 1 {
            assert(path[k + 1] == p2[k + 1]);
        }
    }
}

/// Two tiles that are alike for movement and for sight.
pub open spec fn same_footing(a: TileType, b: TileType) -> bool {
    walkable(a) == walkable(b) && opaque(a) == opaque(b)
}

/// Maps of one size whose tiles agree, place by place, on walkability and
/// opacity admit exactly the same walks.
pub proof fn lemma_same_footing_same_walks(m1: &TileMap, m2: &TileMap, path: Seq<(int, int)>, sx: int, sy: int, x: int, y: int)
    requires
        m1.wf(),
        m2.wf(),
        m1.width == m2.width,
        m1.height == m2.height,
        forall|i: int| 0 <= i < m1.tiles@.len() ==> same_footing(#[trigger] m1.tiles@[i], m2.tiles@[i]),
    ensures
        is_walk(m1, path, sx, sy, x, y) == is_walk(m2, path, sx, sy, x, y),
{
    assert forall|ax: int, ay: int, bx: int, by: int| #[trigger] step(m1, ax, ay, bx, by) == step(m2, ax, ay, bx, by) by {
        if m1.in_bounds(ax, ay) && m1.in_bounds(bx, by) && adjacent(ax, ay, bx, by) {
            crate::map::lemma_index_in_range(m1.width as int, m1.height as int, bx, by);
            crate::map::lemma_index_in_range(m1.width as int, m1.height as int, bx, ay);
            crate::map::lemma_index_in_range(m1.width as int, m1.height as int, ax, by);
        }
    }
    if is_walk(m1, path, sx, sy, x, y) {
        assert forall|k: int| 0 <= k < path.len() - 1 implies step(m2, path[k].0, path[k].1, #[trigger] path[k + 1].0, path[k + 1].1) by {
            assert(step(m1, path[k].0, path[k].1, path[k + 1].0, path[k + 1].1));
        }
    }
    if is_walk(m2, path, sx, sy, x, y) {
        assert forall|k: int| 0 <= k < path.len() - 1 implies step(m1, path[k].0, path[k].1, #[trigger] path[k + 1].0, path[k + 1].1) by {
            assert(step(m2, path[k].0, path[k].1, path[k + 1].0, path[k + 1].1));
        }
    }
}

/// Every point of a walk from a walkable start is walkable.
pub proof fn lemma_walk_walkable(m: &TileMap, path: Seq<(int, int)>, sx: int, sy: int, tx: int, ty: int, k: int)
    requires
        is_walk(m, path, sx, sy, tx, ty),
        walkable(m.at(sx, sy)),
        0 <= k < path.len(),
    ensures
        walkable(m.at(path[k].0, path[k].1)),
        m.in_bounds(path[k].0, path[k].1),
{
    if k > 0 {
        assert(step(m, path[(k - 1)].0, path[k - 1].1, path[(k - 1) + 1].0, path[(k - 1) + 1].1));
    }
}

/// A step between walkable tiles can be taken back.
pub proof fn lemma_step_back(m: &TileMap, ax: int, ay: int, bx: int, by: int)
    requires
        step(m, ax, ay, bx, by),
        walkable(m.at(ax, ay)),
    ensures
        step(m, bx, by, ax, ay),
{
}

/// From a walkable start, whatever two tiles are reached can be walked
/// between: a walk back to the start followed by a walk out.
pub proof fn lemma_reach_via(m: &TileMap, s1x: int, s1y: int, s2x: int, s2y: int, tx: int, ty: int)
    requires
        walkable(m.at(s1x, s1y)),
        reachable(m, s1x, s1y, s2x, s2y),
        reachable(m, s1x, s1y, tx, ty),
    ensures
        reachable(m, s2x, s2y, tx, ty),
{
    let p1 = choose|path: Seq<(int, int)>| is_walk(m, path, s1x, s1y, s2x, s2y);
    let p2 = choose|path: Seq<(int, int)>| is_walk(m, path, s1x, s1y, tx, ty);
    let n = p1.len();
    let back = Seq::new(n, |k: int| p1[n - 1 - k]);
    let q = back + p2.subrange(1, p2.len() as int);
    lemma_walk_walkable(m, p1, s1x, s1y, s2x, s2y, n - 1);
    assert forall|k: int| 0 <= k < q.len() - 1 implies step(m, q[k].0, q[k].1, #[trigger] q[k + 1].0, q[k + 1].1) by {
        if k < n - 1 {
            let j = n - 2 - k;
            assert(step(m, p1[j].0, p1[j].1, p1[j + 1].0, p1[j + 1].1));
            lemma_walk_walkable(m, p1, s1x, s1y, s2x, s2y, j);
            lemma_step_back(m, p1[j].0, p1[j].1, p1[j + 1].0, p1[j + 1].1);
            assert(q[k] == p1[j + 1] && q[k + 1] == p1[j]);
        } else if k == n - 1 {
            assert(q[k] == p1[0]);
            assert(q[k + 1] == p2[1]);
            assert(step(m, p2[0int].0, p2[0int].1, p2[0int + 1].0, p2[0int + 1].1));
        } else {
            let j = k - n + 1;
            assert(q[k] == p2[j] && q[k + 1] == p2[j + 1]);
            assert(step(m, p2[j].0, p2[j].1, p2[j + 1].0, p2[j + 1].1));
        }
    }
    assert(q[0] == (s2x, s2y));
    if p2.len() > 1 {
        assert(q.last() == p2.last());
    } else {
        assert(q.last() == p1[0]);
    }
    assert(is_walk(m, q, s2x, s2y, tx, ty));
}

/// Maps that agree on walkability and opacity reach the same tiles.
pub proof fn lemma_same_footing_reach(m1: &TileMap, m2: &TileMap, sx: int, sy: int, x: int, y: int)
    requires
        m1.wf(),
        m2.wf(),
        m1.width == m2.width,
        m1.height == m2.height,
        forall|i: int| 0 <= i < m1.tiles@.len() ==> same_footing(#[trigger] m1.tiles@[i], m2.tiles@[i]),
    ensures
        reachable(m1, sx, sy, x, y) == reachable(m2, sx, sy, x, y),
{
    if reachable(m1, sx, sy, x, y) {
        let p = choose|path: Seq<(int, int)>| is_walk(m1, path, sx, sy, x, y);
        lemma_same_footing_same_walks(m1, m2, p, sx, sy, x, y);
    }
    if reachable(m2, sx, sy, x, y) {
        let p = choose|path: Seq<(int, int)>| is_walk(m2, path, sx, sy, x, y);
        lemma_same_footing_same_walks(m1, m2, p, sx, sy, x, y);
    }
}

/// Each prefix of a walk is a walk to the point where it stops.
pub proof fn lemma_walk_prefix(m: &TileMap, path: Seq<(int, int)>, sx: int, sy: int, tx: int, ty: int, k: int)
    requires
        is_walk(m, path, sx, sy, tx, ty),
        0 <= k < path.len(),
    ensures
        is_walk(m, path.take(k + 1), sx, sy, path[k].0, path[k].1),
{
    let p = path.take(k + 1);
    assert forall|j: int| 0 <= j < p.len() - 1 implies step(m, p[j].0, p[j].1, #[trigger] p[j + 1].0, p[j + 1].1) by {
        assert(p[j] == path[j]);
        assert(p[j + 1] == path[j + 1]);
    }
}

/// Every point of a walk from a reached start has a finite distance in a closed field.
pub proof fn lemma_walk_is_reached(m: &TileMap, d: Seq<u64>, path: Seq<(int, int)>, sx: int, sy: int, x: int, y: int)
    requires
        m.wf(),
        d.len() == m.tiles@.len(),
        d[index_of(m.width as int, sx, sy)] != UNREACHED,
        closed_under_steps(m, d),
        is_walk(m, path, sx, sy, x, y),
    ensures
        d[index_of(m.width as int, x, y)] != UNREACHED,
{
    lemma_walk_prefix_reached(m, d, path, sx, sy, x, y, path.len() - 1);
}

proof fn lemma_walk_prefix_reached(m: &TileMap, d: Seq<u64>, path: Seq<(int, int)>, sx: int, sy: int, x: int, y: int, k: int)
    requires
        d[index_of(m.width as int, sx, sy)] != UNREACHED,
        closed_under_steps(m, d),
        is_walk(m, path, sx, sy, x, y),
        0 <= k < path.len(),
    ensures
        d[index_of(m.width as int, path[k].0, path[k].1)] != UNREACHED,
    decreases k,
{
    if k > 0 {
        lemma_walk_prefix_reached(m, d, path, sx, sy, x, y, k - 1);
        assert(step(m, path[(k - 1)].0, path[k - 1].1, path[(k - 1) + 1].0, path[(k - 1) + 1].1));
    }
}

/// Lowers the distance of the neighbour `(bx + ddx, by + ddy)` of a reached
/// tile when stepping there from `(bx, by)` is cheaper.
fn relax(m: &TileMap, d: &mut Vec<u64>, sx: i32, sy: i32, bx: i32, by: i32, ddx: i32, ddy: i32)
    requires
        m.wf(),
        m.in_bounds(sx as int, sy as int),
        m.in_bounds(bx as int, by as int),
        -1 <= ddx <= 1,
        -1 <= ddy <= 1,
        !(ddx == 0 && ddy == 0),
        old(d)@.len() == m.tiles@.len(),
        old(d)@[m.idx(bx as int, by as int)] != UNREACHED,
        old(d)@[m.idx(bx as int, by as int)] <= 1000000000000,
        realized(m, sx as int, sy as int, old(d)@),
    ensures
        final(d)@.len() == old(d)@.len(),
        realized(m, sx as int, sy as int, final(d)@),
        forall|i: int| 0 <= i < old(d)@.len() ==> #[trigger] final(d)@[i] <= old(d)@[i],
        final(d)@[m.idx(bx as int, by as int)] == old(d)@[m.idx(bx as int, by as int)],
        forall|i: int|
            0 <= i < old(d)@.len() && old(d)@[i] <= old(d)@[m.idx(bx as int, by as int)] ==> #[trigger] final(d)@[i] == old(d)@[i],
        forall|i: int|
            0 <= i < old(d)@.len() && #[trigger] final(d)@[i] != old(d)@[i] ==> final(d)@[i]
                > old(d)@[m.idx(bx as int, by as int)],
        step(m, bx as int, by as int, bx + ddx, by + ddy) ==> final(d)@[m.idx(bx + ddx, by + ddy)]
            <= old(d)@[m.idx(bx as int, by as int)] + step_cost(bx as int, by as int, bx + ddx, by + ddy),
        forall|i: int|
            0 <= i < old(d)@.len() && #[trigger] final(d)@[i] != old(d)@[i] ==> final(d)@[i]
                <= old(d)@[m.idx(bx as int, by as int)] + DIAGONAL_COST,
        step(m, bx as int, by as int, bx + ddx, by + ddy) ==> final(d)@[m.idx(
            bx + ddx,
            by + ddy,
        )] != UNREACHED,
{
    let qx = bx + ddx;
    let qy = by + ddy;
    if !m.in_bounds_xy(qx, qy) {
        return;
    }
    let qi = m.xy_idx(qx, qy);
    if !m.tiles[qi].is_walkable() {
        return;
    }
    let diagonal = qx != bx && qy != by;
    if diagonal {
        let c1 = m.tiles[m.xy_idx(qx, by)].is_opaque();
        let c2 = m.tiles[m.xy_idx(bx, qy)].is_opaque();
        if c1 && c2 {
            return;
        }
    }
    let bi = m.xy_idx(bx, by);
    let cost: u64 = if diagonal {
        DIAGONAL_COST
    } else {
        STRAIGHT_COST
    };
    let nd = d[bi] + cost;
    if nd < d[qi] {
        let ghost w = m.width as int;
        proof {
            assert(step(m, bx as int, by as int, qx as int, qy as int));
            assert(m.in_bounds(bx as int, by as int) && d@[index_of(w, bx as int, by as int)] != UNREACHED);
            assert(cost == step_cost(bx as int, by as int, qx as int, qy as int));
        }
        let ghost d0 = d@;
        d.set(qi, nd);
        proof {
            assert forall|x: int, y: int|
                #![trigger d@[index_of(w, x, y)]]
                m.in_bounds(x, y) && d@[index_of(w, x, y)] != UNREACHED implies exists|path: Seq<(int, int)>|
                    is_walk(m, path, sx as int, sy as int, x, y) && path_cost(path) == d@[index_of(w, x, y)] as int by {
                crate::map::lemma_index_in_range(w, m.height as int, x, y);
                if index_of(w, x, y) == qi {
                    lemma_index_injective(w, x, y, qx as int, qy as int);
                    let path = choose|path: Seq<(int, int)>|
                        is_walk(m, path, sx as int, sy as int, bx as int, by as int) && path_cost(path) == d0[bi as int] as int;
                    lemma_walk_extend(m, path, sx as int, sy as int, bx as int, by as int, qx as int, qy as int);
                    assert(is_walk(m, path.push((qx as int, qy as int)), sx as int, sy as int, x, y));
                } else {
                    assert(d0[index_of(w, x, y)] == d@[index_of(w, x, y)]);
                }
            }
        }
    }
}

/// Distances from `(sx, sy)` to every tile, in hundredths of a straight
/// step: `UNREACHED` exactly where no walk leads, and otherwise the cost of a
/// walk that gets there.
pub fn distance_field(m: &TileMap, sx: i32, sy: i32) -> (d: Vec<u64>)
    requires
        m.wf(),
        m.in_bounds(sx as int, sy as int),
    ensures
        d@.len() == m.tiles@.len(),
        d@[m.idx(sx as int, sy as int)] == 0,
        realized(m, sx as int, sy as int, d@),
        closed_under_steps(m, d@),
        tight(m, d@),
        forall|x: int, y: int|
            #![trigger d@[m.idx(x, y)]]
            m.in_bounds(x, y) ==> (d@[m.idx(x, y)] != UNREACHED <==> reachable(m, sx as int, sy as int, x, y)),
        forall|x: int, y: int|
            #![trigger d@[m.idx(x, y)]]
            m.in_bounds(x, y) && d@[m.idx(x, y)] != UNREACHED ==> shortest(m, sx as int, sy as int, x, y, d@[m.idx(x, y)] as int),
{
    let n = m.tiles.len();
    let w = m.width as usize;
    let ghost wi = m.width as int;
    let ghost hi = m.height as int;
    let mut d: Vec<u64> = vec![UNREACHED; n];
    let mut done: Vec<bool> = vec![false; n];
    let si = m.xy_idx(sx, sy);
    proof {
        assert(forall|i: int| 0 <= i < n ==> d@[i] == UNREACHED);
        assert(forall|i: int| 0 <= i < n ==> !done@[i]);
    }
    d.set(si, 0);
    proof {
        assert forall|px: int, py: int, qx: int, qy: int|
            #![trigger step(m, px, py, qx, qy)]
            step(m, px, py, qx, qy) && done@[index_of(wi, px, py)]
                implies d@[index_of(wi, qx, qy)] != UNREACHED by {
            crate::map::lemma_index_in_range(wi, hi, px, py);
        }
        assert forall|px: int, py: int, qx: int, qy: int|
            #![trigger step(m, px, py, qx, qy)]
            step(m, px, py, qx, qy) && done@[index_of(wi, px, py)]
                implies d@[index_of(wi, qx, qy)] <= d@[index_of(wi, px, py)] + step_cost(px, py, qx, qy) by {
            crate::map::lemma_index_in_range(wi, hi, px, py);
        }
        assert forall|x: int, y: int|
            #![trigger d@[index_of(wi, x, y)]]
            m.in_bounds(x, y) && d@[index_of(wi, x, y)] != UNREACHED implies exists|path: Seq<(int, int)>|
                is_walk(m, path, sx as int, sy as int, x, y) && path_cost(path) == d@[index_of(wi, x, y)] as int by {
            crate::map::lemma_index_in_range(wi, hi, x, y);
            if index_of(wi, x, y) != si as int {
                assert(d@[index_of(wi, x, y)] == UNREACHED);
            }
            lemma_index_injective(wi, x, y, sx as int, sy as int);
            let path = seq![(sx as int, sy as int)];
            assert(path.len() == 1);
            assert(path_cost(path) == 0);
            assert(d@[index_of(wi, x, y)] == 0);
            assert(is_walk(m, path, sx as int, sy as int, x, y));
        }
        assert(done_set(done@) =~= Set::empty());
    }
    let ghost mut rounds: int = 0;
    loop
        invariant
            m.wf(),
            m.in_bounds(sx as int, sy as int),
            n == m.tiles@.len(),
            w == m.width,
            wi == m.width,
            hi == m.height,
            d@.len() == n,
            done@.len() == n,
            si == m.idx(sx as int, sy as int),
            si < n,
            d@[si as int] == 0,
            realized(m, sx as int, sy as int, d@),
            settled_closed(m, d@, done@),
            settled_tight(m, d@, done@),
            forall|i: int, j: int|
                0 <= i < n && 0 <= j < n && #[trigger] done@[i] && !#[trigger] done@[j] && d@[j] != UNREACHED ==> d@[i] <= d@[j],
            forall|i: int| 0 <= i < n && #[trigger] done@[i] ==> d@[i] != UNREACHED,
            forall|i: int| 0 <= i < n && #[trigger] d@[i] != UNREACHED ==> d@[i] <= 141 * rounds,
            done_set(done@).finite(),
            done_set(done@).len() == rounds,
            0 <= rounds <= n,
        ensures
            d@.len() == n,
            done@.len() == n,
            d@[si as int] == 0,
            realized(m, sx as int, sy as int, d@),
            settled_closed(m, d@, done@),
            settled_tight(m, d@, done@),
            forall|i: int| 0 <= i < n && #[trigger] d@[i] != UNREACHED ==> done@[i],
        decreases n - rounds,
    {
        let mut best: usize = n;
        let mut i: usize = 0;
        while i < n
            invariant
                n == d@.len(),
                n == done@.len(),
                i <= n,
                best == n || (best < n && !done@[best as int] && d@[best as int] != UNREACHED),
                forall|j: int| 0 <= j < i && !done@[j] && #[trigger] d@[j] != UNREACHED ==> best < n && d@[best as int] <= d@[j],
            decreases n - i,
        {
            if !done[i] && d[i] != UNREACHED && (best == n || d[i] < d[best]) {
                best = i;
            }
            i += 1;
        }
        if best == n {
            break;
        }
        proof {
            lemma_index_decompose(wi, hi, best as int);
        }
        let bx = (best % w) as i32;
        let by = (best / w) as i32;
        proof {
            let s0 = done_set(done@);
            let s1 = s0.insert(best as int);
            lemma_int_range(0, n as int);
            assert(s1.subset_of(set_int_range(0, n as int)));
            lemma_len_subset(s1, set_int_range(0, n as int));
            assert(!s0.contains(best as int));
        }
        let ghost s0 = done_set(done@);
        done.set(best, true);
        proof {
            assert(done_set(done@) =~= s0.insert(best as int));
            rounds = rounds + 1;
            assert(d@[best as int] <= 141 * (rounds - 1));
        }
        let ghost d0 = d@;
        relax(m, &mut d, sx, sy, bx, by, -1, -1);
        relax(m, &mut d, sx, sy, bx, by, 0, -1);
        relax(m, &mut d, sx, sy, bx, by, 1, -1);
        relax(m, &mut d, sx, sy, bx, by, -1, 0);
        relax(m, &mut d, sx, sy, bx, by, 1, 0);
        relax(m, &mut d, sx, sy, bx, by, -1, 1);
        relax(m, &mut d, sx, sy, bx, by, 0, 1);
        relax(m, &mut d, sx, sy, bx, by, 1, 1);
        proof {
            assert forall|px: int, py: int, qx: int, qy: int|
                #![trigger step(m, px, py, qx, qy)]
                step(m, px, py, qx, qy) && done@[index_of(wi, px, py)]
                    implies d@[index_of(wi, qx, qy)] != UNREACHED by {
                crate::map::lemma_index_in_range(wi, hi, qx, qy);
                crate::map::lemma_index_in_range(wi, hi, px, py);
                if index_of(wi, px, py) != best as int {
                    assert(d0[index_of(wi, qx, qy)] != UNREACHED);
                } else {
                    lemma_index_injective(wi, px, py, bx as int, by as int);
                }
            }
            assert forall|px: int, py: int, qx: int, qy: int|
                #![trigger step(m, px, py, qx, qy)]
                step(m, px, py, qx, qy) && done@[index_of(wi, px, py)]
                    implies d@[index_of(wi, qx, qy)] <= d@[index_of(wi, px, py)] + step_cost(px, py, qx, qy) by {
                crate::map::lemma_index_in_range(wi, hi, qx, qy);
                crate::map::lemma_index_in_range(wi, hi, px, py);
                if index_of(wi, px, py) != best as int {
                    assert(d0[index_of(wi, px, py)] <= d0[best as int]);
                    assert(d@[index_of(wi, px, py)] == d0[index_of(wi, px, py)]);
                    assert(d0[index_of(wi, qx, qy)] <= d0[index_of(wi, px, py)] + step_cost(px, py, qx, qy));
                } else {
                    lemma_index_injective(wi, px, py, bx as int, by as int);
                }
            }
        }
    }
    proof {
        assert forall|px: int, py: int, qx: int, qy: int|
            #![trigger step(m, px, py, qx, qy)]
            step(m, px, py, qx, qy) && d@[index_of(wi, px, py)] != UNREACHED
                implies d@[index_of(wi, qx, qy)] != UNREACHED by {
            crate::map::lemma_index_in_range(wi, hi, px, py);
        }
        assert forall|px: int, py: int, qx: int, qy: int|
            #![trigger step(m, px, py, qx, qy)]
            step(m, px, py, qx, qy) && d@[index_of(wi, px, py)] != UNREACHED
                implies d@[index_of(wi, qx, qy)] <= d@[index_of(wi, px, py)] + step_cost(px, py, qx, qy) by {
            crate::map::lemma_index_in_range(wi, hi, px, py);
        }
        assert forall|x: int, y: int|
            #![trigger d@[m.idx(x, y)]]
            m.in_bounds(x, y) && d@[m.idx(x, y)] != UNREACHED implies shortest(m, sx as int, sy as int, x, y, d@[m.idx(x, y)] as int) by {
            crate::map::lemma_index_in_range(wi, hi, x, y);
            assert forall|path: Seq<(int, int)>| is_walk(m, path, sx as int, sy as int, x, y)
                implies d@[m.idx(x, y)] <= path_cost(path) by {
                lemma_walk_cost_bounds(m, d@, path, sx as int, sy as int, x, y, path.len() - 1);
                assert(path.take(path.len() as int) =~= path);
            }
        }
        assert forall|x: int, y: int|
            #![trigger d@[m.idx(x, y)]]
            m.in_bounds(x, y) implies (d@[m.idx(x, y)] != UNREACHED <==> reachable(m, sx as int, sy as int, x, y)) by {
            if reachable(m, sx as int, sy as int, x, y) {
                let path = choose|path: Seq<(int, int)>| is_walk(m, path, sx as int, sy as int, x, y);
                lemma_walk_is_reached(m, d@, path, sx as int, sy as int, x, y);
            }
        }
    }
    d
}

} // verus!
