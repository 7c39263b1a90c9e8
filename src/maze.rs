use vstd::prelude::*;
use bracket_random::prelude::RandomNumberGenerator;
use crate::builder::BuilderMap;
use crate::fov::Point;
use crate::random::roll_dice;
use crate::tiletype::TileType;

verus! {

/// One cell of the maze lattice and which of its four walls still stand.
#[derive(PartialEq, Eq, Structural, Copy, Clone, Debug)]
pub struct MazeCell {
    pub top: bool,
    pub right: bool,
    pub bottom: bool,
    pub left: bool,
    pub visited: bool,
}

/// A lattice of `cols` by `rows` maze cells.
pub struct Grid {
    pub cols: usize,
    pub rows: usize,
    pub cells: Vec<MazeCell>,
}

impl Grid {
    pub open spec fn wf(&self) -> bool {
        1 <= self.cols && 1 <= self.rows && self.cols * self.rows <= i32::MAX && self.cells@.len() == self.cols * self.rows
    }

    /// A lattice with every wall standing and no cell visited.
    pub fn new(cols: usize, rows: usize) -> (g: Grid)
        requires
            1 <= cols,
            1 <= rows,
            cols * rows <= i32::MAX,
        ensures
            g.wf(),
            g.cols == cols,
            g.rows == rows,
            forall|i: int| 0 <= i < g.cells@.len() ==> #[trigger] g.cells@[i] == (MazeCell { top: true, right: true, bottom: true, left: true, visited: false }),
    {
        let n = cols * rows;
        let cells = vec![MazeCell { top: true, right: true, bottom: true, left: true, visited: false }; n];
        Grid { cols, rows, cells }
    }

    /// The unvisited cells next to cell `i`, in the order above, right,
    /// below, left.
    fn unvisited_neighbours(&self, i: usize) -> (r: Vec<usize>)
        requires
            self.wf(),
            i < self.cells@.len(),
        ensures
            r@.len() <= 4,
            forall|k: int| 0 <= k < r@.len() ==> (#[trigger] r@[k]) < self.cells@.len() && !self.cells@[r@[k] as int].visited,
    {
        let mut r: Vec<usize> = Vec::new();
        let col = i % self.cols;
        let row = i / self.cols;
        proof {
            crate::map::lemma_index_decompose(self.cols as int, self.rows as int, i as int);
            assert(i == row * self.cols + col);
            if row > 0 {
                assert(row * self.cols >= self.cols) by (nonlinear_arith)
                    requires row >= 1, self.cols >= 1;
            }
            if col + 1 < self.cols {
                assert(row * self.cols + col + 1 < self.cols * self.rows) by (nonlinear_arith)
                    requires row < self.rows, col + 1 < self.cols;
            }
        }
        if row > 0 && !self.cells[i - self.cols].visited {
            r.push(i - self.cols);
        }
        if col + 1 < self.cols && !self.cells[i + 1].visited {
            r.push(i + 1);
        }
        if row + 1 < self.rows {
            proof {
                assert((row + 1) * self.cols + col < self.cols * self.rows) by (nonlinear_arith)
                    requires row + 1 < self.rows, col < self.cols;
                assert((row + 1) * self.cols + col == i + self.cols) by (nonlinear_arith)
                    requires i == row * self.cols + col;
            }
            if !self.cells[i + self.cols].visited {
                r.push(i + self.cols);
            }
        }
        if col > 0 && !self.cells[i - 1].visited {
            r.push(i - 1);
        }
        r
    }

    /// Knocks down the wall between neighbouring cells `a` and `b`.
    fn remove_walls(&mut self, a: usize, b: usize)
        requires
            old(self).wf(),
            a < old(self).cells@.len(),
            b < old(self).cells@.len(),
        ensures
            final(self).wf(),
            final(self).cols == old(self).cols,
            final(self).rows == old(self).rows,
            forall|i: int| 0 <= i < old(self).cells@.len() ==> (#[trigger] final(self).cells@[i]).visited == old(self).cells@[i].visited,
    {
        proof {
            assert(self.cols <= self.cols * self.rows) by (nonlinear_arith)
                requires self.rows >= 1, self.cols >= 1;
        }
        let mut ca = self.cells[a];
        let mut cb = self.cells[b];
        if b + 1 == a {
            ca.left = false;
            cb.right = false;
        } else if a + 1 == b {
            ca.right = false;
            cb.left = false;
        } else if b + self.cols == a {
            ca.top = false;
            cb.bottom = false;
        } else if a + self.cols == b {
            ca.bottom = false;
            cb.top = false;
        }
        self.cells.set(a, ca);
        self.cells.set(b, cb);
    }

    /// Carves a perfect maze by randomised depth-first search from the first
    /// cell, backing up along the trail when a cell has no unvisited
    /// neighbour. Each cell is entered once and left once, so the search is
    /// over within twice as many steps as there are cells; it is cut off one
    /// step after that.
    pub fn generate_maze(&mut self, rng: &mut RandomNumberGenerator)
        requires
            old(self).wf(),
        ensures
            final(self).wf(),
            final(self).cols == old(self).cols,
            final(self).rows == old(self).rows,
    {
        let n = self.cells.len();
        proof {
            assert(self.cols * self.rows >= 1) by (nonlinear_arith)
                requires self.rows >= 1, self.cols >= 1;
        }
        let mut current: usize = 0;
        let mut backtrace: Vec<usize> = Vec::new();
        let mut steps: usize = 0;
        let limit: usize = 2 * n + 1;
        while steps < limit
            invariant
                self.wf(),
                self.cols == old(self).cols,
                self.rows == old(self).rows,
                n == self.cells@.len(),
                limit == 2 * n + 1,
                current < n,
                forall|k: int| 0 <= k < backtrace@.len() ==> #[trigger] backtrace@[k] < n,
            decreases limit - steps,
        {
            let mut c = self.cells[current];
            c.visited = true;
            self.cells.set(current, c);
            let choices = self.unvisited_neighbours(current);
            if choices.len() > 0 {
                let pick = if choices.len() == 1 {
                    0
                } else {
                    (roll_dice(rng, 1, choices.len() as i32) - 1) as usize
                };
                let next = choices[pick];
                let mut cn = self.cells[next];
                cn.visited = true;
                self.cells.set(next, cn);
                backtrace.insert(0, current);
                self.remove_walls(current, next);
                current = next;
            } else if backtrace.len() > 0 {
                current = backtrace[0];
                backtrace.remove(0);
            } else {
                break;
            }
            steps += 1;
        }
    }
}

/// A maze: the lattice has `(width / 2) - 2` by `(height / 2) - 2` cells;
/// cell `(c, r)` is the floor tile `(2c + 2, 2r + 2)`, and each fallen wall
/// opens the tile beside it. The starting position is the first cell.
pub fn build_maze(data: &mut BuilderMap, rng: &mut RandomNumberGenerator)
    requires
        old(data).wf(),
        old(data).map.closed(),
    ensures
        final(data).wf(),
        final(data).map.closed(),
        final(data).map.width == old(data).map.width,
        final(data).map.height == old(data).map.height,
        final(data).map.depth == old(data).map.depth,
        final(data).spawn_list == old(data).spawn_list,
        final(data).record_history == old(data).record_history,
        old(data).map.width >= 8 && old(data).map.height >= 8 ==> final(data).starting_position == Some(Point { x: 2, y: 2 })
            && final(data).map.at(2, 2) == TileType::Floor,
        old(data).map.width < 8 || old(data).map.height < 8 ==> final(data).starting_position == old(data).starting_position,
        old(data).map.width >= 8 && old(data).map.height >= 8 ==> {
            let cols = old(data).map.width / 2 - 2;
            let rows = old(data).map.height / 2 - 2;
            forall|c: int| 0 <= c < cols * rows ==> #[trigger] final(data).map.at(2 * (c % cols) + 2, 2 * (c / cols) + 2) == TileType::Floor
        },
{
    let w = data.map.width;
    let h = data.map.height;
    if w < 8 || h < 8 {
        return;
    }
    proof {
        assert(w <= 500000000 && h <= 500000000) by (nonlinear_arith)
            requires w * h <= i32::MAX, w >= 8, h >= 8;
    }
    let cols = (w / 2 - 2) as usize;
    let rows = (h / 2 - 2) as usize;
    proof {
        assert(cols * rows <= w * h) by (nonlinear_arith)
            requires 0 < cols <= w, 0 < rows <= h;
    }
    let mut grid = Grid::new(cols, rows);
    grid.generate_maze(rng);
    let mut i: usize = 0;
    while i < grid.cells.len()
        invariant
            data.wf(),
            data.map.closed(),
            data.map.width == w,
            data.map.height == h,
            data.map.depth == old(data).map.depth,
            data.spawn_list == old(data).spawn_list,
            data.starting_position == old(data).starting_position,
            data.record_history == old(data).record_history,
            grid.wf(),
            grid.cols == cols,
            grid.rows == rows,
            cols == w / 2 - 2,
            rows == h / 2 - 2,
            8 <= w <= 500000000,
            8 <= h <= 500000000,
            i <= grid.cells@.len(),
            i > 0 ==> data.map.at(2, 2) == TileType::Floor,
            forall|c: int| 0 <= c < i ==> #[trigger] data.map.at(2 * (c % cols as int) + 2, 2 * (c / cols as int) + 2) == TileType::Floor,
        decreases grid.cells.len() - i,
    {
        proof {
            crate::map::lemma_index_decompose(cols as int, rows as int, i as int);
        }
        let cell = grid.cells[i];
        let x = ((i % cols) as i32 + 1) * 2;
        let y = ((i / cols) as i32 + 1) * 2;
        let ghost before = data.map;
        open_tile(data, x, y);
        if !cell.top {
            open_tile(data, x, y - 1);
        }
        if !cell.right {
            open_tile(data, x + 1, y);
        }
        if !cell.bottom {
            open_tile(data, x, y + 1);
        }
        if !cell.left {
            open_tile(data, x - 1, y);
        }
        proof {
            assert forall|c: int| 0 <= c < i + 1 implies #[trigger] data.map.at(2 * (c % cols as int) + 2, 2 * (c / cols as int) + 2) == TileType::Floor by {
                if c < i {
                    crate::map::lemma_index_decompose(cols as int, rows as int, c);
                    assert(before.at(2 * (c % cols as int) + 2, 2 * (c / cols as int) + 2) == TileType::Floor);
                    assert(before.in_bounds(2 * (c % cols as int) + 2, 2 * (c / cols as int) + 2)) by (nonlinear_arith)
                        requires (c % (cols as int)) < cols, (c / (cols as int)) < rows, (c % (cols as int)) >= 0, (c / (cols as int)) >= 0,
                            cols == w / 2 - 2, rows == h / 2 - 2, before.width == w, before.height == h, 8 <= w, 8 <= h;
                }
            }
        }
        i += 1;
    }
    proof {
        assert(cols * rows >= 1) by (nonlinear_arith)
            requires cols >= 1, rows >= 1;
    }
    data.starting_position = Some(Point { x: 2, y: 2 });
    data.take_snapshot();
}

/// Turns an inner tile into floor.
fn open_tile(data: &mut BuilderMap, x: i32, y: i32)
    requires
        old(data).wf(),
        old(data).map.closed(),
        1 <= x < old(data).map.width - 1,
        1 <= y < old(data).map.height - 1,
    ensures
        final(data).wf(),
        final(data).map.closed(),
        final(data).map.width == old(data).map.width,
        final(data).map.height == old(data).map.height,
        final(data).map.depth == old(data).map.depth,
        final(data).spawn_list == old(data).spawn_list,
        final(data).starting_position == old(data).starting_position,
        final(data).record_history == old(data).record_history,
        final(data).map.at(x as int, y as int) == TileType::Floor,
        forall|px: int, py: int|
            old(data).map.in_bounds(px, py) && old(data).map.at(px, py) == TileType::Floor ==> #[trigger] final(data).map.at(px, py) == TileType::Floor,
{
    let idx = data.map.xy_idx(x, y);
    let ghost m0 = data.map;
    data.map.tiles.set(idx, TileType::Floor);
    proof {
        assert forall|px: int, py: int|
            #![trigger data.map.at(px, py)]
            data.map.in_bounds(px, py) && data.map.on_edge(px, py) implies data.map.at(px, py) == TileType::Wall by {
            crate::map::lemma_index_in_range(m0.width as int, m0.height as int, px, py);
            if crate::map::index_of(m0.width as int, px, py) == idx {
                crate::map::lemma_index_injective(m0.width as int, px, py, x as int, y as int);
            }
            assert(m0.at(px, py) == TileType::Wall);
        }
        assert forall|px: int, py: int|
            m0.in_bounds(px, py) && m0.at(px, py) == TileType::Floor implies #[trigger] data.map.at(px, py) == TileType::Floor by {
            crate::map::lemma_index_in_range(m0.width as int, m0.height as int, px, py);
        }
    }
}

} // verus!
