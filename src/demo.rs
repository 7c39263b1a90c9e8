use vstd::prelude::*;
use bracket_random::prelude::RandomNumberGenerator;
use crate::map::{edge_index, lemma_index_coords};
use crate::random::roll_range;

verus! {

/// Tiles of the small demonstration maps.
#[derive(PartialEq, Eq, Structural, Copy, Clone, Debug)]
pub enum DemoTile {
    Wall,
    Floor,
}

#[derive(PartialEq, Eq, Structural, Copy, Clone, Debug)]
pub enum Mode {
    Waiting,
    Moving,
    Exiting,
}

/// The two field-of-view routines the lighting demonstration switches between.
#[derive(PartialEq, Eq, Structural, Copy, Clone, Debug)]
pub enum FovAlgorithm {
    Shadowcast,
    Library,
}

/// A walled room strewn with random pillars and a player walking in it.
pub struct DemoState {
    pub map: Vec<DemoTile>,
    pub player_position: usize,
    pub visible: Vec<bool>,
    pub mode: Mode,
    pub width: i32,
    pub height: i32,
    pub fov_algorithm: FovAlgorithm,
}

/// Cost of an orthogonal move, in tenths.
pub const DEMO_STRAIGHT: u32 = 10;

/// Cost of a diagonal move, in tenths.
pub const DEMO_DIAGONAL: u32 = 14;

pub fn xy_idx(width: i32, x: i32, y: i32) -> (r: usize)
    requires
        0 <= x < width,
        0 <= y,
        y * width + x <= i32::MAX,
    ensures
        r == y * width + x,
{
    proof {
        assert(0 <= y * width) by (nonlinear_arith)
            requires 0 <= y, 0 < width;
    }
    (y * width + x) as usize
}

pub fn idx_xy(width: usize, idx: usize) -> (r: (i32, i32))
    requires
        0 < width <= i32::MAX,
        idx <= i32::MAX,
    ensures
        r.0 == idx % width,
        r.1 == idx / width,
{
    ((idx % width) as i32, (idx / width) as i32)
}

impl DemoState {
    pub open spec fn wf(&self) -> bool {
        &&& 3 <= self.width && 3 <= self.height
        &&& self.width * self.height <= i32::MAX
        &&& self.map@.len() == self.width * self.height
        &&& self.visible@.len() == self.map@.len()
        &&& self.player_position < self.map@.len()
    }

    pub open spec fn tile(&self, x: int, y: int) -> DemoTile {
        self.map@[y * self.width + x]
    }

    /// The outer ring is wall and the player stands on floor inside it.
    pub open spec fn walled(&self) -> bool {
        &&& forall|i: int|
            0 <= i < self.map@.len() && edge_index(self.width as int, self.height as int, i) ==> #[trigger] self.map@[i]
                == DemoTile::Wall
        &&& self.map@[self.player_position as int] == DemoTile::Floor
        &&& !edge_index(self.width as int, self.height as int, self.player_position as int)
    }

    /// A fresh demonstration with the player in the middle.
    pub fn new(width: i32, height: i32, rng: &mut RandomNumberGenerator) -> (r: DemoState)
        requires
            3 <= width,
            3 <= height,
            width * height <= i32::MAX,
        ensures
            r.wf(),
            r.walled(),
            r.width == width,
            r.height == height,
            r.player_position == (height / 2) * width + width / 2,
            r.mode == Mode::Waiting,
    {
        proof {
            assert((height / 2) * width + width / 2 < width * height) by (nonlinear_arith)
                requires 3 <= width, 3 <= height;
        }
        let length = (width * height) as usize;
        proof {
            lemma_index_coords(width as int, width / 2, height / 2);
        }
        let mut state = DemoState {
            map: vec![DemoTile::Floor; length],
            player_position: xy_idx(width, width / 2, height / 2),
            visible: vec![false; length],
            mode: Mode::Waiting,
            width,
            height,
            fov_algorithm: FovAlgorithm::Shadowcast,
        };
        state.recreate_map(rng);
        state
    }

    /// Rebuilds the room: walls round the edge and, half as many times as
    /// there are tiles, a wall at a random interior point other than the
    /// player's.
    pub fn recreate_map(&mut self, rng: &mut RandomNumberGenerator)
        requires
            old(self).wf(),
            !edge_index(old(self).width as int, old(self).height as int, old(self).player_position as int),
        ensures
            final(self).wf(),
            final(self).walled(),
            final(self).width == old(self).width,
            final(self).height == old(self).height,
            final(self).player_position == old(self).player_position,
            final(self).mode == old(self).mode,
    {
        let w = self.width;
        let h = self.height;
        let wu = w as usize;
        let hu = h as usize;
        let length = (w * h) as usize;
        self.map = vec![DemoTile::Floor; length];
        let mut i: usize = 0;
        while i < length
            invariant
                self.wf(),
                self.width == w,
                self.height == h,
                wu == w,
                hu == h,
                length == w * h,
                self.player_position == old(self).player_position,
                self.mode == old(self).mode,
                !edge_index(w as int, h as int, self.player_position as int),
                i <= length,
                forall|j: int| 0 <= j < length ==> #[trigger] self.map@[j] == (if j < i && edge_index(w as int, h as int, j) {
                    DemoTile::Wall
                } else {
                    DemoTile::Floor
                }),
            decreases length - i,
        {
            let x = i % wu;
            let y = i / wu;
            if x == 0 || x == wu - 1 || y == 0 || y == hu - 1 {
                self.map.set(i, DemoTile::Wall);
            }
            i += 1;
        }
        let mut k: usize = 0;
        while k < length / 2
            invariant
                self.wf(),
                self.width == w,
                self.height == h,
                length == w * h,
                self.player_position == old(self).player_position,
                self.mode == old(self).mode,
                self.walled(),
            decreases length / 2 - k,
        {
            let x = roll_range(rng, 1, w - 1);
            let y = roll_range(rng, 1, h - 1);
            proof {
                assert(y * w + x < w * h) by (nonlinear_arith)
                    requires 1 <= x < w - 1, 1 <= y < h - 1;
                lemma_index_coords(w as int, x as int, y as int);
            }
            let idx = xy_idx(w, x, y);
            if self.player_position != idx {
                self.map.set(idx, DemoTile::Wall);
            }
            k += 1;
        }
    }
}

/// The eight moves in the order exits are listed: west, east, north,
/// south, then north-west, north-east, south-west, south-east.
pub open spec fn demo_delta(k: int) -> (int, int) {
    if k == 0 { (-1, 0) } else if k == 1 { (1, 0) } else if k == 2 { (0, -1) } else if k == 3 { (0, 1) }
    else if k == 4 { (-1, -1) } else if k == 5 { (1, -1) } else if k == 6 { (-1, 1) } else { (1, 1) }
}

impl DemoState {
    pub open spec fn exit_valid(&self, x: int, y: int) -> bool {
        1 <= x <= self.width - 1 && 1 <= y <= self.height - 1 && self.tile(x, y) == DemoTile::Floor
    }

    /// The exits from `(x, y)` among the first `k` moves, in order.
    pub open spec fn exits_upto(&self, x: int, y: int, k: int) -> Seq<(usize, u32)>
        decreases k,
    {
        if k <= 0 {
            Seq::empty()
        } else {
            let before = self.exits_upto(x, y, k - 1);
            let (dx, dy) = demo_delta(k - 1);
            if self.exit_valid(x + dx, y + dy) {
                before.push((((y + dy) * self.width + x + dx) as usize, if dx == 0 || dy == 0 { DEMO_STRAIGHT } else { DEMO_DIAGONAL }))
            } else {
                before
            }
        }
    }
}

impl DemoState {
    /// A move onto `(x, y)` is allowed: it is inside the outer ring (or on
    /// its right or bottom side) and floor.
    pub fn is_exit_valid(&self, x: i32, y: i32) -> (r: bool)
        requires
            self.wf(),
        ensures
            r == (1 <= x <= self.width - 1 && 1 <= y <= self.height - 1 && self.tile(x as int, y as int)
                == DemoTile::Floor),
    {
        if x < 1 || x > self.width - 1 || y < 1 || y > self.height - 1 {
            return false;
        }
        proof {
            assert(y * self.width + x < self.width * self.height) by (nonlinear_arith)
                requires 1 <= x <= self.width - 1, 1 <= y <= self.height - 1;
        }
        let idx = (y * self.width) + x;
        self.map[idx as usize] == DemoTile::Floor
    }

    /// The neighbours of tile `idx` that can be moved to, with the cost of
    /// each move in tenths: orthogonal first (west, east, north, south),
    /// then diagonal (north-west, north-east, south-west, south-east).
    pub fn get_available_exits(&self, idx: usize) -> (r: Vec<(usize, u32)>)
        requires
            self.wf(),
            idx < self.map@.len(),
        ensures
            r@.len() <= 8,
            forall|k: int|
                0 <= k < r@.len() ==> {
                    let (j, c) = #[trigger] r@[k];
                    let x = idx as int % self.width as int;
                    let y = idx as int / self.width as int;
                    let jx = j as int % self.width as int;
                    let jy = j as int / self.width as int;
                    &&& j < self.map@.len()
                    &&& self.map@[j as int] == DemoTile::Floor
                    &&& -1 <= jx - x <= 1 && -1 <= jy - y <= 1
                    &&& c == (if jx == x || jy == y { DEMO_STRAIGHT } else { DEMO_DIAGONAL })
                },
    {
        let w = self.width;
        let wu = w as usize;
        let x = (idx % wu) as i32;
        let y = (idx / wu) as i32;
        proof {
            crate::map::lemma_index_decompose(w as int, self.height as int, idx as int);
        }
        let mut exits: Vec<(usize, u32)> = Vec::new();
        let deltas: [(i32, i32); 8] = [(-1, 0), (1, 0), (0, -1), (0, 1), (-1, -1), (1, -1), (-1, 1), (1, 1)];
        let mut d: usize = 0;
        while d < 8
            invariant
                self.wf(),
                w == self.width,
                wu == w,
                x == idx as int % w as int,
                y == idx as int / w as int,
                0 <= x < w,
                0 <= y < self.height,
                exits@.len() <= d,
                d <= 8,
                forall|k: int| 0 <= k < 8 ==> -1 <= (#[trigger] deltas@[k]).0 <= 1 && -1 <= deltas@[k].1 <= 1 && !(deltas@[k].0 == 0 && deltas@[k].1 == 0),
                forall|k: int| 0 <= k < 8 ==> (#[trigger] deltas@[k]).0 == demo_delta(k).0 && deltas@[k].1 == demo_delta(k).1,
                exits@ == self.exits_upto(x as int, y as int, d as int),
                forall|k: int|
                    0 <= k < exits@.len() ==> {
                        let (j, c) = #[trigger] exits@[k];
                        let jx = j as int % self.width as int;
                        let jy = j as int / self.width as int;
                        &&& j < self.map@.len()
                        &&& self.map@[j as int] == DemoTile::Floor
                        &&& -1 <= jx - x <= 1 && -1 <= jy - y <= 1
                        &&& c == (if jx == x || jy == y { DEMO_STRAIGHT } else { DEMO_DIAGONAL })
                    },
            decreases 8 - d,
        {
            let (dx, dy) = deltas[d];
            let nx = x + dx;
            let ny = y + dy;
            if self.is_exit_valid(nx, ny) {
                proof {
                    assert(ny * w + nx < w * self.height) by (nonlinear_arith)
                        requires 1 <= nx <= w - 1, 1 <= ny <= self.height - 1;
                    lemma_index_coords(w as int, nx as int, ny as int);
                }
                let j = (ny * w + nx) as usize;
                let cost = if dx == 0 || dy == 0 {
                    DEMO_STRAIGHT
                } else {
                    DEMO_DIAGONAL
                };
                exits.push((j, cost));
            }
            d += 1;
        }
        exits
    }

    /// Steps the player by `(delta_x, delta_y)` when the tile there is floor.
    pub fn move_player(&mut self, delta_x: i32, delta_y: i32)
        requires
            old(self).wf(),
            old(self).walled(),
            -1 <= delta_x <= 1,
            -1 <= delta_y <= 1,
        ensures
            final(self).wf(),
            final(self).walled(),
            final(self).map == old(self).map,
            final(self).width == old(self).width,
            final(self).height == old(self).height,
            final(self).mode == Mode::Waiting,
            ({
                let w = old(self).width as int;
                let p = old(self).player_position as int;
                let nx = p % w + delta_x;
                let ny = p / w + delta_y;
                if 0 <= nx < w && 0 <= ny < old(self).height && old(self).tile(nx, ny) == DemoTile::Floor {
                    final(self).player_position == ny * w + nx
                } else {
                    final(self).player_position == old(self).player_position
                }
            }),
    {
        self.mode = Mode::Moving;
        let (cx, cy) = idx_xy(self.width as usize, self.player_position);
        let nx = cx + delta_x;
        let ny = cy + delta_y;
        proof {
            crate::map::lemma_index_decompose(self.width as int, self.height as int, self.player_position as int);
        }
        if 0 <= nx && nx < self.width && 0 <= ny && ny < self.height {
            proof {
                assert(ny * self.width + nx < self.width * self.height) by (nonlinear_arith)
                    requires 0 <= nx < self.width, 0 <= ny < self.height;
            }
            let new_idx = xy_idx(self.width, nx, ny);
            if self.map[new_idx] == DemoTile::Floor {
                self.player_position = new_idx;
            }
        }
        self.mode = Mode::Waiting;
    }

    /// Switches to the other field-of-view routine.
    pub fn switch_fov_algorithm(&mut self)
        ensures
            final(self).fov_algorithm == (if old(self).fov_algorithm == FovAlgorithm::Shadowcast {
                FovAlgorithm::Library
            } else {
                FovAlgorithm::Shadowcast
            }),
            final(self).map == old(self).map,
            final(self).player_position == old(self).player_position,
            final(self).width == old(self).width,
            final(self).height == old(self).height,
            final(self).visible == old(self).visible,
            final(self).mode == old(self).mode,
    {
        self.fov_algorithm = match self.fov_algorithm {
            FovAlgorithm::Shadowcast => FovAlgorithm::Library,
            FovAlgorithm::Library => FovAlgorithm::Shadowcast,
        };
    }
}

} // verus!
