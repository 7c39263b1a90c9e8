use vstd::prelude::*;
use crate::tiletype::{TileType, walkable, opaque};

verus! {

/// A rectangular grid of tiles with per-tile visibility bookkeeping.
#[derive(Clone, Debug)]
pub struct TileMap {
    pub tiles: Vec<TileType>,
    pub width: i32,
    pub height: i32,
    pub depth: i32,
    pub name: String,
    pub revealed_tiles: Vec<bool>,
    pub visible_tiles: Vec<bool>,
}

/// Index of the tile at column `x`, row `y` on a grid `w` wide.
pub open spec fn index_of(w: int, x: int, y: int) -> int {
    y * w + x
}

/// The grid dimensions are positive and every index fits in an `i32`.
pub open spec fn dims_ok(w: int, h: int) -> bool {
    0 < w && 0 < h && w * h <= i32::MAX
}

/// Whether a `width` by `height` map can be made.
pub fn dims_ok_exec(width: i32, height: i32) -> (r: bool)
    ensures
        r == dims_ok(width as int, height as int),
{
    if width <= 0 || height <= 0 {
        return false;
    }
    proof {
        assert(0 < (width as i64) * (height as i64) <= 0x4000_0000_0000_0000) by (nonlinear_arith)
            requires 0 < width <= i32::MAX, 0 < height <= i32::MAX;
    }
    (width as i64) * (height as i64) <= i32::MAX as i64
}

pub proof fn lemma_index_in_range(w: int, h: int, x: int, y: int)
    requires
        0 < w,
        0 < h,
        0 <= x < w,
        0 <= y < h,
    ensures
        0 <= index_of(w, x, y) < w * h,
{
    assert(0 <= y * w <= (h - 1) * w) by (nonlinear_arith)
        requires 0 <= y < h, 0 < w;
    assert((h - 1) * w == w * h - w) by (nonlinear_arith);
}

/// Every index below `w * h` is the index of exactly one in-bounds point.
pub proof fn lemma_index_decompose(w: int, h: int, i: int)
    requires
        0 < w,
        0 < h,
        0 <= i < w * h,
    ensures
        0 <= i % w < w,
        0 <= i / w < h,
        index_of(w, i % w, i / w) == i,
{
    vstd::arithmetic::div_mod::lemma_fundamental_div_mod(i, w);
    vstd::arithmetic::div_mod::lemma_div_pos_is_pos(i, w);
    let q = i / w;
    let r = i % w;
    assert(q < h) by (nonlinear_arith)
        requires i == w * q + r, 0 <= r, i < w * h, 0 < w;
    assert(q * w == w * q) by (nonlinear_arith);
}

/// The column and row of an index are recovered by `%` and `/`.
pub proof fn lemma_index_coords(w: int, x: int, y: int)
    requires
        0 <= x < w,
    ensures
        index_of(w, x, y) % w == x,
        index_of(w, x, y) / w == y,
{
    vstd::arithmetic::div_mod::lemma_fundamental_div_mod_converse(index_of(w, x, y), w, y, x);
}

/// The index `i` lies on the outer ring of a `w` by `h` grid.
pub open spec fn edge_index(w: int, h: int, i: int) -> bool {
    i % w == 0 || i % w == w - 1 || i / w == 0 || i / w == h - 1
}

/// Two in-bounds points with the same index are the same point.
pub proof fn lemma_index_injective(w: int, x1: int, y1: int, x2: int, y2: int)
    requires
        0 <= x1 < w,
        0 <= x2 < w,
        index_of(w, x1, y1) == index_of(w, x2, y2),
    ensures
        x1 == x2,
        y1 == y2,
{
    if y1 < y2 {
        assert(y1 * w + w <= y2 * w) by (nonlinear_arith)
            requires y1 < y2, 0 < w;
    } else if y2 < y1 {
        assert(y2 * w + w <= y1 * w) by (nonlinear_arith)
            requires y2 < y1, 0 < w;
    }
}

impl TileMap {
    pub open spec fn wf(&self) -> bool {
        &&& dims_ok(self.width as int, self.height as int)
        &&& self.tiles@.len() == self.width * self.height
        &&& self.revealed_tiles@.len() == self.tiles@.len()
        &&& self.visible_tiles@.len() == self.tiles@.len()
    }

    pub open spec fn in_bounds(&self, x: int, y: int) -> bool {
        0 <= x < self.width && 0 <= y < self.height
    }

    pub open spec fn idx(&self, x: int, y: int) -> int {
        index_of(self.width as int, x, y)
    }

    /// The tile at `(x, y)`.
    pub open spec fn at(&self, x: int, y: int) -> TileType {
        self.tiles@[self.idx(x, y)]
    }

    /// A point on the outer ring of the grid.
    pub open spec fn on_edge(&self, x: int, y: int) -> bool {
        x == 0 || x == self.width - 1 || y == 0 || y == self.height - 1
    }

    /// Every tile of the outer ring is a wall.
    pub open spec fn closed(&self) -> bool {
        forall|x: int, y: int|
            #![trigger self.at(x, y)]
            self.in_bounds(x, y) && self.on_edge(x, y) ==> self.at(x, y) == TileType::Wall
    }

    /// A map of the given size with every tile a wall, nothing revealed or visible.
    pub fn new(depth: i32, width: i32, height: i32, name: String) -> (m: TileMap)
        requires
            dims_ok(width as int, height as int),
        ensures
            m.wf(),
            m.depth == depth,
            m.width == width,
            m.height == height,
            m.name@ == name@,
            forall|i: int| 0 <= i < m.tiles@.len() ==> m.tiles@[i] == TileType::Wall,
            forall|i: int| 0 <= i < m.tiles@.len() ==> !m.revealed_tiles@[i] && !m.visible_tiles@[i],
    {
        let n: usize = (width * height) as usize;
        TileMap {
            tiles: vec![TileType::Wall; n],
            width,
            height,
            depth,
            name,
            revealed_tiles: vec![false; n],
            visible_tiles: vec![false; n],
        }
    }

    /// Turns every tile of the outer ring into a wall and leaves the rest.
    pub fn close_boundary(&mut self)
        requires
            old(self).wf(),
        ensures
            final(self).wf(),
            final(self).width == old(self).width,
            final(self).height == old(self).height,
            final(self).depth == old(self).depth,
            final(self).name == old(self).name,
            final(self).revealed_tiles == old(self).revealed_tiles,
            final(self).visible_tiles == old(self).visible_tiles,
            final(self).closed(),
            forall|x: int, y: int|
                #![trigger final(self).at(x, y)]
                old(self).in_bounds(x, y) ==> final(self).at(x, y) == (if old(self).on_edge(x, y) {
                    TileType::Wall
                } else {
                    old(self).at(x, y)
                }),
    {
        let n = self.tiles.len();
        let w = self.width as usize;
        let h = self.height as usize;
        let ghost t0 = self.tiles@;
        let mut i: usize = 0;
        while i < n
            invariant
                self.wf(),
                self.width == old(self).width,
                self.height == old(self).height,
                self.depth == old(self).depth,
                self.name == old(self).name,
                self.revealed_tiles == old(self).revealed_tiles,
                self.visible_tiles == old(self).visible_tiles,
                t0 == old(self).tiles@,
                n == t0.len(),
                self.tiles@.len() == n,
                w == self.width,
                h == self.height,
                i <= n,
                forall|j: int|
                    0 <= j < n ==> #[trigger] self.tiles@[j] == (if j < i && edge_index(w as int, h as int, j) {
                        TileType::Wall
                    } else {
                        t0[j]
                    }),
            decreases n - i,
        {
            let x = i % w;
            let y = i / w;
            if x == 0 || x == w - 1 || y == 0 || y == h - 1 {
                self.tiles.set(i, TileType::Wall);
            }
            i += 1;
        }
        proof {
            assert forall|x: int, y: int|
                #![trigger self.at(x, y)]
                old(self).in_bounds(x, y) implies self.at(x, y) == (if old(self).on_edge(x, y) {
                    TileType::Wall
                } else {
                    old(self).at(x, y)
                }) by {
                lemma_index_in_range(w as int, h as int, x, y);
                lemma_index_coords(w as int, x, y);
            }
        }
    }

    pub fn xy_idx(&self, x: i32, y: i32) -> (r: usize)
        requires
            self.wf(),
            self.in_bounds(x as int, y as int),
        ensures
            r == self.idx(x as int, y as int),
            r < self.tiles@.len(),
    {
        proof {
            lemma_index_in_range(self.width as int, self.height as int, x as int, y as int);
        }
        (y * self.width + x) as usize
    }

    pub fn in_bounds_xy(&self, x: i32, y: i32) -> (r: bool)
        ensures
            r == self.in_bounds(x as int, y as int),
    {
        0 <= x && x < self.width && 0 <= y && y < self.height
    }

    pub fn is_opaque(&self, idx: usize) -> (r: bool)
        requires
            idx < self.tiles@.len(),
        ensures
            r == opaque(self.tiles@[idx as int]),
    {
        self.tiles[idx].is_opaque()
    }

    pub fn is_walkable(&self, idx: usize) -> (r: bool)
        requires
            idx < self.tiles@.len(),
        ensures
            r == walkable(self.tiles@[idx as int]),
    {
        self.tiles[idx].is_walkable()
    }
}

} // verus!
