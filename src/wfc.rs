use vstd::prelude::*;
use bracket_random::prelude::RandomNumberGenerator;
use crate::builder::{BuilderMap, BuildError};
use crate::random::roll_range;
use crate::tiletype::TileType;
use crate::map::TileMap;

verus! {

/// Side of a pattern, in tiles.
pub const CHUNK: usize = 8;

/// Attempts at a full solution before giving up.
pub const MAX_ATTEMPTS: usize = 10;

/// Side directions of a chunk.
pub const NORTH: usize = 0;
pub const EAST: usize = 1;
pub const SOUTH: usize = 2;
pub const WEST: usize = 3;

/// A square block of `CHUNK * CHUNK` tiles, row after row.
pub open spec fn pattern_ok(p: Seq<TileType>) -> bool {
    p.len() == CHUNK * CHUNK
}

fn same_tiles(a: &Vec<TileType>, b: &Vec<TileType>) -> (r: bool)
    ensures
        r == (a@ == b@),
{
    if a.len() != b.len() {
        return false;
    }
    let mut i: usize = 0;
    while i < a.len()
        invariant
            a@.len() == b@.len(),
            i <= a@.len(),
            forall|j: int| 0 <= j < i ==> a@[j] == b@[j],
        decreases a.len() - i,
    {
        if a[i] != b[i] {
            return false;
        }
        i += 1;
    }
    proof {
        assert(a@ =~= b@);
    }
    true
}

/// Adds `p` to `patterns` unless an equal pattern is there already.
fn add_unique(patterns: &mut Vec<Vec<TileType>>, p: Vec<TileType>)
    requires
        pattern_ok(p@),
        forall|k: int| 0 <= k < old(patterns)@.len() ==> pattern_ok((#[trigger] old(patterns)@[k])@),
    ensures
        final(patterns)@.len() <= old(patterns)@.len() + 1,
        forall|k: int| 0 <= k < final(patterns)@.len() ==> pattern_ok((#[trigger] final(patterns)@[k])@),
{
    let mut found = false;
    let mut k: usize = 0;
    while k < patterns.len()
        invariant
            k <= patterns@.len(),
        decreases patterns.len() - k,
    {
        if same_tiles(&patterns[k], &p) {
            found = true;
        }
        k += 1;
    }
    if !found {
        patterns.push(p);
    }
}

/// The chunk whose top left tile is `(x0, y0)`, read straight, mirrored left
/// to right, or mirrored top to bottom.
fn read_chunk(data: &BuilderMap, x0: usize, y0: usize, flip_x: bool, flip_y: bool) -> (r: Vec<TileType>)
    requires
        data.wf(),
        x0 + CHUNK <= data.map.width,
        y0 + CHUNK <= data.map.height,
    ensures
        pattern_ok(r@),
{
    let mut r: Vec<TileType> = Vec::new();
    let mut dy: usize = 0;
    while dy < CHUNK
        invariant
            data.wf(),
            x0 + CHUNK <= data.map.width,
            y0 + CHUNK <= data.map.height,
            dy <= CHUNK,
            r@.len() == dy * CHUNK,
        decreases CHUNK - dy,
    {
        let mut dx: usize = 0;
        while dx < CHUNK
            invariant
                data.wf(),
                x0 + CHUNK <= data.map.width,
                y0 + CHUNK <= data.map.height,
                dy < CHUNK,
                dx <= CHUNK,
                r@.len() == dy * CHUNK + dx,
            decreases CHUNK - dx,
        {
            let sx = if flip_x { x0 + (CHUNK - 1 - dx) } else { x0 + dx };
            let sy = if flip_y { y0 + (CHUNK - 1 - dy) } else { y0 + dy };
            let idx = data.map.xy_idx(sx as i32, sy as i32);
            r.push(data.map.tiles[idx]);
            dx += 1;
        }
        dy += 1;
    }
    r
}

/// Every chunk of the map, with its two mirror images, without repeats.
pub fn build_patterns(data: &BuilderMap) -> (r: Vec<Vec<TileType>>)
    requires
        data.wf(),
    ensures
        forall|k: int| 0 <= k < r@.len() ==> pattern_ok((#[trigger] r@[k])@),
        r@.len() <= data.map.tiles@.len(),
{
    let cx = data.map.width as usize / CHUNK;
    let cy = data.map.height as usize / CHUNK;
    let mut patterns: Vec<Vec<TileType>> = Vec::new();
    let mut y: usize = 0;
    proof {
        assert(3 * cy * cx <= data.map.tiles@.len()) by (nonlinear_arith)
            requires cx * 8 <= data.map.width, cy * 8 <= data.map.height, data.map.tiles@.len() == data.map.width * data.map.height, 0 <= cx, 0 <= cy;
    }
    while y < cy
        invariant
            data.wf(),
            cx == data.map.width as usize / CHUNK,
            cy == data.map.height as usize / CHUNK,
            3 * cy * cx <= data.map.tiles@.len(),
            y <= cy,
            patterns@.len() <= 3 * y * cx,
            forall|k: int| 0 <= k < patterns@.len() ==> pattern_ok((#[trigger] patterns@[k])@),
        decreases cy - y,
    {
        let mut x: usize = 0;
        while x < cx
            invariant
                data.wf(),
                cx == data.map.width as usize / CHUNK,
                cy == data.map.height as usize / CHUNK,
                y < cy,
                x <= cx,
                patterns@.len() <= 3 * y * cx + 3 * x,
                forall|k: int| 0 <= k < patterns@.len() ==> pattern_ok((#[trigger] patterns@[k])@),
            decreases cx - x,
        {
            proof {
                assert((x + 1) * CHUNK <= data.map.width) by (nonlinear_arith)
                    requires x < cx, cx == data.map.width as usize / CHUNK, data.map.width >= 0;
                assert((y + 1) * CHUNK <= data.map.height) by (nonlinear_arith)
                    requires y < cy, cy == data.map.height as usize / CHUNK, data.map.height >= 0;
            }
            let x0 = x * CHUNK;
            let y0 = y * CHUNK;
            let plain = read_chunk(data, x0, y0, false, false);
            add_unique(&mut patterns, plain);
            let mirrored = read_chunk(data, x0, y0, true, false);
            add_unique(&mut patterns, mirrored);
            let flipped = read_chunk(data, x0, y0, false, true);
            add_unique(&mut patterns, flipped);
            x += 1;
        }
        proof {
            assert(3 * y * cx + 3 * cx == 3 * (y + 1) * cx) by (nonlinear_arith);
        }
        y += 1;
    }
    patterns
}

/// Most patterns the solver works with.
pub const MAX_PATTERNS: usize = 2048;

/// Tile `k` along side `dir` of pattern `p`: rows read left to right,
/// columns top to bottom.
pub open spec fn edge_tile(p: Seq<TileType>, dir: usize, k: int) -> TileType {
    if dir == NORTH {
        p[k]
    } else if dir == SOUTH {
        p[(CHUNK - 1) * CHUNK + k]
    } else if dir == WEST {
        p[k * CHUNK]
    } else {
        p[k * CHUNK + CHUNK - 1]
    }
}

pub open spec fn opposite(dir: usize) -> usize {
    if dir == NORTH {
        SOUTH
    } else if dir == SOUTH {
        NORTH
    } else if dir == WEST {
        EAST
    } else {
        WEST
    }
}

/// Side `dir` of `p` has a floor tile: an exit.
pub open spec fn side_open(p: Seq<TileType>, dir: usize) -> bool {
    exists|k: int| 0 <= k < CHUNK && edge_tile(p, dir, k) == TileType::Floor
}

/// `p` has an exit on some side.
pub open spec fn has_exits(p: Seq<TileType>) -> bool {
    side_open(p, NORTH) || side_open(p, EAST) || side_open(p, SOUTH) || side_open(p, WEST)
}

/// Pattern `b` may sit on side `dir` of pattern `a`: one of them is closed
/// all round, or the facing sides share an exit slot, or both facing sides
/// are closed.
pub open spec fn fits(a: Seq<TileType>, b: Seq<TileType>, dir: usize) -> bool {
    ||| !has_exits(a)
    ||| !has_exits(b)
    ||| (exists|k: int|
        0 <= k < CHUNK && edge_tile(a, dir, k) == TileType::Floor && edge_tile(b, opposite(dir), k)
            == TileType::Floor)
    ||| (!side_open(a, dir) && !side_open(b, opposite(dir)))
}

fn edge_index(dir: usize, k: usize) -> (r: usize)
    requires
        dir < 4,
        k < CHUNK,
    ensures
        r < CHUNK * CHUNK,
        dir == NORTH ==> r == k,
        dir == SOUTH ==> r == (CHUNK - 1) * CHUNK + k,
        dir == WEST ==> r == k * CHUNK,
        dir == EAST ==> r == k * CHUNK + CHUNK - 1,
{
    if dir == NORTH {
        k
    } else if dir == SOUTH {
        (CHUNK - 1) * CHUNK + k
    } else if dir == WEST {
        k * CHUNK
    } else {
        k * CHUNK + CHUNK - 1
    }
}

fn opposite_of(dir: usize) -> (r: usize)
    requires
        dir < 4,
    ensures
        r == opposite(dir),
        r < 4,
{
    if dir == NORTH {
        SOUTH
    } else if dir == SOUTH {
        NORTH
    } else if dir == WEST {
        EAST
    } else {
        WEST
    }
}

fn side_open_exec(p: &Vec<TileType>, dir: usize) -> (r: bool)
    requires
        pattern_ok(p@),
        dir < 4,
    ensures
        r == side_open(p@, dir),
{
    let mut k: usize = 0;
    while k < CHUNK
        invariant
            pattern_ok(p@),
            dir < 4,
            k <= CHUNK,
            forall|j: int| 0 <= j < k ==> edge_tile(p@, dir, j) != TileType::Floor,
        decreases CHUNK - k,
    {
        let i = edge_index(dir, k);
        if p[i] == TileType::Floor {
            proof {
                assert(p@[i as int] == edge_tile(p@, dir, k as int));
            }
            return true;
        }
        k += 1;
    }
    false
}

fn has_exits_exec(p: &Vec<TileType>) -> (r: bool)
    requires
        pattern_ok(p@),
    ensures
        r == has_exits(p@),
{
    side_open_exec(p, NORTH) || side_open_exec(p, EAST) || side_open_exec(p, SOUTH) || side_open_exec(p, WEST)
}

pub fn fits_exec(a: &Vec<TileType>, b: &Vec<TileType>, dir: usize) -> (r: bool)
    requires
        pattern_ok(a@),
        pattern_ok(b@),
        dir < 4,
    ensures
        r == fits(a@, b@, dir),
{
    if !has_exits_exec(a) || !has_exits_exec(b) {
        return true;
    }
    let od = opposite_of(dir);
    let mut k: usize = 0;
    while k < CHUNK
        invariant
            pattern_ok(a@),
            pattern_ok(b@),
            dir < 4,
            od == opposite(dir),
            k <= CHUNK,
            forall|j: int| 0 <= j < k ==> !(edge_tile(a@, dir, j) == TileType::Floor && edge_tile(b@, opposite(dir), j) == TileType::Floor),
        decreases CHUNK - k,
    {
        let ia = edge_index(dir, k);
        let ib = edge_index(od, k);
        if a[ia] == TileType::Floor && b[ib] == TileType::Floor {
            proof {
                assert(a@[ia as int] == edge_tile(a@, dir, k as int));
                assert(b@[ib as int] == edge_tile(b@, opposite(dir), k as int));
            }
            return true;
        }
        k += 1;
    }
    !side_open_exec(a, dir) && !side_open_exec(b, od)
}

/// `table[(a * n + b) * 4 + dir]` tells whether `b` fits on side `dir` of `a`.
pub open spec fn table_ok(patterns: Seq<Vec<TileType>>, table: Seq<bool>) -> bool {
    &&& table.len() == patterns.len() * patterns.len() * 4
    &&& forall|a: int, b: int, d: int|
        0 <= a < patterns.len() && 0 <= b < patterns.len() && 0 <= d < 4 ==> #[trigger] table[(a * patterns.len() + b) * 4 + d]
            == fits(patterns[a]@, patterns[b]@, d as usize)
}

fn compat_table(patterns: &Vec<Vec<TileType>>) -> (t: Vec<bool>)
    requires
        patterns@.len() <= MAX_PATTERNS,
        forall|k: int| 0 <= k < patterns@.len() ==> pattern_ok((#[trigger] patterns@[k])@),
    ensures
        table_ok(patterns@, t@),
{
    let n = patterns.len();
    let mut t: Vec<bool> = Vec::new();
    let mut a: usize = 0;
    while a < n
        invariant
            n == patterns@.len(),
            n <= MAX_PATTERNS,
            a <= n,
            forall|k: int| 0 <= k < n ==> pattern_ok((#[trigger] patterns@[k])@),
            t@.len() == a * n * 4,
            forall|x: int, y: int, d: int|
                0 <= x < a && 0 <= y < n && 0 <= d < 4 ==> #[trigger] t@[(x * n + y) * 4 + d] == fits(patterns@[x]@, patterns@[y]@, d as usize),
        decreases n - a,
    {
        let mut b: usize = 0;
        while b < n
            invariant
                n == patterns@.len(),
                n <= MAX_PATTERNS,
                a < n,
                b <= n,
                forall|k: int| 0 <= k < n ==> pattern_ok((#[trigger] patterns@[k])@),
                t@.len() == (a * n + b) * 4,
                forall|x: int, y: int, d: int|
                    0 <= x < n && 0 <= y < n && 0 <= d < 4 && (x < a || (x == a && y < b)) ==> #[trigger] t@[(x * n + y) * 4 + d] == fits(patterns@[x]@, patterns@[y]@, d as usize),
            decreases n - b,
        {
            let mut d: usize = 0;
            while d < 4
                invariant
                    n == patterns@.len(),
                    n <= MAX_PATTERNS,
                    a < n,
                    b < n,
                    d <= 4,
                    forall|k: int| 0 <= k < n ==> pattern_ok((#[trigger] patterns@[k])@),
                    t@.len() == (a * n + b) * 4 + d,
                    forall|x: int, y: int, e: int|
                        0 <= x < n && 0 <= y < n && 0 <= e < 4 && (x < a || (x == a && y < b) || (x == a && y == b && e < d)) ==> #[trigger] t@[(x * n + y) * 4 + e] == fits(patterns@[x]@, patterns@[y]@, e as usize),
                decreases 4 - d,
            {
                proof {
                    assert((a * n + b) * 4 + d < n * n * 4) by (nonlinear_arith)
                        requires a < n, b < n, d < 4;
                }
                let f = fits_exec(&patterns[a], &patterns[b], d);
                let ghost before = t@;
                t.push(f);
                proof {
                    assert forall|x: int, y: int, e: int|
                        0 <= x < n && 0 <= y < n && 0 <= e < 4 && (x < a || (x == a && y < b) || (x == a && y == b && e < d + 1)) implies #[trigger] t@[(x * n + y) * 4 + e] == fits(patterns@[x]@, patterns@[y]@, e as usize) by {
                        if x == a && y == b && e == d {
                        } else {
                            assert((x * n + y) * 4 + e < (a * n + b) * 4 + d) by (nonlinear_arith)
                                requires 0 <= x < n, 0 <= y < n, 0 <= e < 4, x < a || (x == a && y < b) || (x == a && y == b && e < d);
                            assert(t@[(x * n + y) * 4 + e] == before[(x * n + y) * 4 + e]);
                        }
                    }
                }
                d += 1;
            }
            proof {
                assert((a * n + b) * 4 + 4 == (a * n + (b + 1)) * 4) by (nonlinear_arith);
            }
            b += 1;
        }
        proof {
            assert((a * n + n) * 4 == (a + 1) * n * 4) by (nonlinear_arith);
        }
        a += 1;
    }
    proof {
        assert(n * n * 4 == a * n * 4);
    }
    t
}

/// The cell next to cell `c` of a `cx` by `cy` lattice on side `d`, if the
/// lattice goes on that way.
pub open spec fn next_cell(c: int, d: usize, cx: int, cy: int) -> Option<int> {
    let x = c % cx;
    let y = c / cx;
    if d == NORTH {
        if y > 0 { Some(c - cx) } else { None }
    } else if d == SOUTH {
        if y + 1 < cy { Some(c + cx) } else { None }
    } else if d == WEST {
        if x > 0 { Some(c - 1) } else { None }
    } else {
        if x + 1 < cx { Some(c + 1) } else { None }
    }
}

/// Every pair of side-by-side cells holds patterns that fit each other.
pub open spec fn consistent(patterns: Seq<Vec<TileType>>, grid: Seq<usize>, cx: int, cy: int) -> bool {
    forall|c: int, d: usize|
        0 <= c < grid.len() && d < 4 && #[trigger] next_cell(c, d, cx, cy) is Some && grid[c] < patterns.len()
            && grid[next_cell(c, d, cx, cy)->Some_0] < patterns.len() ==> fits(
            patterns[grid[c] as int]@,
            patterns[grid[next_cell(c, d, cx, cy)->Some_0] as int]@,
            d,
        )
}

proof fn lemma_fits_symmetric(a: Seq<TileType>, b: Seq<TileType>, d: usize)
    requires
        d < 4,
    ensures
        fits(a, b, d) == fits(b, a, opposite(d)),
        opposite(opposite(d)) == d,
{
}

proof fn lemma_next_cell_back(c: int, d: usize, cx: int, cy: int)
    requires
        1 <= cx,
        1 <= cy,
        0 <= c < cx * cy,
        d < 4,
        next_cell(c, d, cx, cy) is Some,
    ensures
        0 <= next_cell(c, d, cx, cy)->Some_0 < cx * cy,
        next_cell(next_cell(c, d, cx, cy)->Some_0, opposite(d), cx, cy) == Some(c),
{
    crate::map::lemma_index_decompose(cx, cy, c);
    let x = c % cx;
    let y = c / cx;
    let e = next_cell(c, d, cx, cy)->Some_0;
    assert(c == y * cx + x);
    assert((y - 1) * cx == y * cx - cx) by (nonlinear_arith);
    assert((y + 1) * cx == y * cx + cx) by (nonlinear_arith);
    if d == NORTH {
        crate::map::lemma_index_coords(cx, x, y - 1);
        assert(e == crate::map::index_of(cx, x, y - 1));
    } else if d == SOUTH {
        crate::map::lemma_index_coords(cx, x, y + 1);
        assert(e == crate::map::index_of(cx, x, y + 1));
        crate::map::lemma_index_in_range(cx, cy, x, y + 1);
    } else if d == WEST {
        crate::map::lemma_index_coords(cx, x - 1, y);
        assert(e == crate::map::index_of(cx, x - 1, y));
    } else {
        crate::map::lemma_index_coords(cx, x + 1, y);
        assert(e == crate::map::index_of(cx, x + 1, y));
        crate::map::lemma_index_in_range(cx, cy, x + 1, y);
    }
}

/// The cell next to cell `c` of a `cx` by `cy` lattice on side `d`.
fn neighbour(c: usize, d: usize, cx: usize, cy: usize) -> (r: Option<usize>)
    requires
        1 <= cx,
        1 <= cy,
        c < cx * cy,
        cx * cy <= i32::MAX,
        d < 4,
    ensures
        r matches Some(nb) ==> nb < cx * cy,
        r is Some <==> next_cell(c as int, d, cx as int, cy as int) is Some,
        r matches Some(nb) ==> nb == next_cell(c as int, d, cx as int, cy as int)->Some_0,
{
    proof {
        crate::map::lemma_index_decompose(cx as int, cy as int, c as int);
    }
    let x = c % cx;
    let y = c / cx;
    if d == NORTH {
        if y > 0 {
            proof {
                assert(c >= cx) by (nonlinear_arith)
                    requires c == y * cx + x, y >= 1, x >= 0;
            }
            Some(c - cx)
        } else {
            None
        }
    } else if d == SOUTH {
        if y + 1 < cy {
            proof {
                assert(c + cx < cx * cy) by (nonlinear_arith)
                    requires c == y * cx + x, y + 1 < cy, x < cx;
            }
            Some(c + cx)
        } else {
            None
        }
    } else if d == WEST {
        if x > 0 { Some(c - 1) } else { None }
    } else {
        if x + 1 < cx {
            proof {
                assert(c + 1 < cx * cy) by (nonlinear_arith)
                    requires c == y * cx + x, y < cy, x + 1 < cx;
            }
            Some(c + 1)
        } else {
            None
        }
    }
}

/// Pattern `p` fits every pattern already placed next to cell `c`.
fn allowed(grid: &Vec<usize>, table: &Vec<bool>, n: usize, c: usize, p: usize, cx: usize, cy: usize) -> (r: bool)
    requires
        1 <= cx,
        1 <= cy,
        cx * cy <= i32::MAX,
        grid@.len() == cx * cy,
        c < cx * cy,
        p < n,
        n <= MAX_PATTERNS,
        table@.len() == n * n * 4,
    ensures
        r ==> forall|d: usize|
            d < 4 && #[trigger] next_cell(c as int, d, cx as int, cy as int) is Some && grid@[next_cell(c as int, d, cx as int, cy as int)->Some_0] < n
                ==> table@[(p * n + grid@[next_cell(c as int, d, cx as int, cy as int)->Some_0]) * 4 + d],
{
    let mut d: usize = 0;
    while d < 4
        invariant
            1 <= cx,
            1 <= cy,
            cx * cy <= i32::MAX,
            grid@.len() == cx * cy,
            c < cx * cy,
            p < n,
            n <= MAX_PATTERNS,
            table@.len() == n * n * 4,
            d <= 4,
            forall|e: usize|
                e < d && #[trigger] next_cell(c as int, e, cx as int, cy as int) is Some && grid@[next_cell(c as int, e, cx as int, cy as int)->Some_0] < n
                    ==> table@[(p * n + grid@[next_cell(c as int, e, cx as int, cy as int)->Some_0]) * 4 + e],
        decreases 4 - d,
    {
        match neighbour(c, d, cx, cy) {
            Some(nb) => {
                let q = grid[nb];
                if q < n {
                    proof {
                        assert(p * n + q < n * n) by (nonlinear_arith)
                            requires p < n, q < n;
                        assert(n * n <= 4194304) by (nonlinear_arith)
                            requires n <= 2048;
                    }
                    if !table[(p * n + q) * 4 + d] {
                        return false;
                    }
                }
            },
            None => {},
        }
        d += 1;
    }
    true
}

/// One attempt: repeatedly collapses the unresolved cell with the fewest
/// allowed patterns (the first such cell on ties) to a random allowed
/// pattern. `None` when some cell has no allowed pattern left.
fn solve_once(patterns: &Vec<Vec<TileType>>, table: &Vec<bool>, n: usize, cx: usize, cy: usize, rng: &mut RandomNumberGenerator) -> (r: Option<Vec<usize>>)
    requires
        1 <= cx,
        1 <= cy,
        cx * cy <= i32::MAX,
        1 <= n <= MAX_PATTERNS,
        n == patterns@.len(),
        table_ok(patterns@, table@),
    ensures
        r matches Some(g) ==> g@.len() == cx * cy && (forall|c: int| 0 <= c < g@.len() ==> #[trigger] g@[c] < n)
            && consistent(patterns@, g@, cx as int, cy as int),
{
    let cells = cx * cy;
    let mut grid: Vec<usize> = vec![n; cells];
    let mut step: usize = 0;
    while step < cells
        invariant
            1 <= cx,
            1 <= cy,
            cells == cx * cy,
            cells <= i32::MAX,
            1 <= n <= MAX_PATTERNS,
            table@.len() == n * n * 4,
            n == patterns@.len(),
            table_ok(patterns@, table@),
            grid@.len() == cells,
            forall|c: int| 0 <= c < cells ==> #[trigger] grid@[c] <= n,
            consistent(patterns@, grid@, cx as int, cy as int),
        decreases cells - step,
    {
        let mut best: usize = cells;
        let mut best_count: usize = n + 1;
        let mut c: usize = 0;
        while c < cells
            invariant
                1 <= cx,
                1 <= cy,
                cells == cx * cy,
                cells <= i32::MAX,
                1 <= n <= MAX_PATTERNS,
                table@.len() == n * n * 4,
                grid@.len() == cells,
                best == cells || (best < cells && grid@[best as int] == n && best_count <= n),
                best_count <= n + 1,
            decreases cells - c,
        {
            if grid[c] == n {
                let mut count: usize = 0;
                let mut p: usize = 0;
                while p < n
                    invariant
                        1 <= cx,
                        1 <= cy,
                        cells == cx * cy,
                        cells <= i32::MAX,
                        n <= MAX_PATTERNS,
                        table@.len() == n * n * 4,
                        grid@.len() == cells,
                        c < cells,
                        count <= p <= n,
                    decreases n - p,
                {
                    if allowed(&grid, table, n, c, p, cx, cy) {
                        count += 1;
                    }
                    p += 1;
                }
                if count < best_count {
                    best = c;
                    best_count = count;
                }
            }
            c += 1;
        }
        if best == cells {
            break;
        }
        if best_count == 0 {
            return None;
        }
        let pick = roll_range(rng, 0, best_count as i32) as usize;
        let mut seen: usize = 0;
        let mut chosen: usize = n;
        let mut p: usize = 0;
        while p < n
            invariant
                1 <= cx,
                1 <= cy,
                cells == cx * cy,
                cells <= i32::MAX,
                n <= MAX_PATTERNS,
                table@.len() == n * n * 4,
                grid@.len() == cells,
                best < cells,
                chosen <= n,
                seen <= p <= n,
                chosen < n ==> forall|d: usize|
                    d < 4 && #[trigger] next_cell(best as int, d, cx as int, cy as int) is Some && grid@[next_cell(best as int, d, cx as int, cy as int)->Some_0] < n
                        ==> table@[(chosen * n + grid@[next_cell(best as int, d, cx as int, cy as int)->Some_0]) * 4 + d],
            decreases n - p,
        {
            if chosen == n && allowed(&grid, table, n, best, p, cx, cy) {
                if seen == pick {
                    chosen = p;
                }
                seen += 1;
            }
            p += 1;
        }
        if chosen == n {
            return None;
        }
        let ghost g0 = grid@;
        grid.set(best, chosen);
        proof {
            assert(g0[best as int] == n);
            assert forall|c: int, d: usize|
                0 <= c < grid@.len() && d < 4 && #[trigger] next_cell(c, d, cx as int, cy as int) is Some && grid@[c] < patterns@.len()
                    && grid@[next_cell(c, d, cx as int, cy as int)->Some_0] < patterns@.len() implies fits(
                    patterns@[grid@[c] as int]@,
                    patterns@[grid@[next_cell(c, d, cx as int, cy as int)->Some_0] as int]@,
                    d,
                ) by {
                lemma_next_cell_back(c, d, cx as int, cy as int);
                let e = next_cell(c, d, cx as int, cy as int)->Some_0;
                if c == best as int {
                    assert(e != c);
                    assert(table@[(chosen * n + grid@[e]) * 4 + d]);
                } else if e == best as int {
                    let od = opposite(d);
                    assert(next_cell(best as int, od, cx as int, cy as int) == Some(c));
                    assert(table@[(chosen * n + g0[c]) * 4 + od]);
                    lemma_fits_symmetric(patterns@[chosen as int]@, patterns@[g0[c] as int]@, od);
                } else {
                    assert(g0[c] == grid@[c] && g0[e] == grid@[e]);
                }
            }
        }
        step += 1;
    }
    let mut c: usize = 0;
    while c < cells
        invariant
            cells == grid@.len(),
            c <= cells,
            forall|j: int| 0 <= j < c ==> #[trigger] grid@[j] < n,
        decreases cells - c,
    {
        if grid[c] >= n {
            return None;
        }
        c += 1;
    }
    Some(grid)
}

/// The tile at `(x, y)` of a map laid out as `cx` by `cy` chunks holding
/// the patterns `grid` names: wall beyond the last whole chunk.
pub open spec fn chunk_tile(patterns: Seq<Vec<TileType>>, grid: Seq<usize>, cx: int, cy: int, x: int, y: int) -> TileType {
    if x < cx * CHUNK && y < cy * CHUNK {
        patterns[grid[(y / CHUNK as int) * cx + x / CHUNK as int] as int]@[(y % CHUNK as int) * CHUNK + x % CHUNK as int]
    } else {
        TileType::Wall
    }
}

/// Away from the outer ring, `m` is laid out as whole chunks holding the
/// patterns `g` names, every chunk fitting the chunks beside it.
pub open spec fn made_of_chunks(m: &TileMap, pats: Seq<Vec<TileType>>, g: Seq<usize>) -> bool {
    let cx = m.width as int / CHUNK as int;
    let cy = m.height as int / CHUNK as int;
    &&& g.len() == cx * cy
    &&& (forall|c: int| 0 <= c < g.len() ==> #[trigger] g[c] < pats.len())
    &&& consistent(pats, g, cx, cy)
    &&& forall|x: int, y: int|
        #![trigger m.at(x, y)]
        m.in_bounds(x, y) && !m.on_edge(x, y) ==> m.at(x, y) == chunk_tile(pats, g, cx, cy, x, y)
}

/// Position of tile `(x, y)` in the chunk order: its chunk, then its place
/// inside the chunk.
spec fn chunk_order(cx: int, x: int, y: int) -> (int, int) {
    ((y / CHUNK as int) * cx + x / CHUNK as int, (y % CHUNK as int) * CHUNK + x % CHUNK as int)
}

proof fn lemma_chunk_position(cx: int, cy: int, c: int, k: int)
    requires
        1 <= cx,
        1 <= cy,
        0 <= c < cx * cy,
        0 <= k < CHUNK * CHUNK,
    ensures
        ({
            let x = (c % cx) * CHUNK + k % CHUNK as int;
            let y = (c / cx) * CHUNK + k / CHUNK as int;
            &&& 0 <= x < cx * CHUNK
            &&& 0 <= y < cy * CHUNK
            &&& chunk_order(cx, x, y) == (c, k)
        }),
{
    crate::map::lemma_index_decompose(cx, cy, c);
    let x = (c % cx) * 8 + k % 8;
    let y = (c / cx) * 8 + k / 8;
    vstd::arithmetic::div_mod::lemma_fundamental_div_mod_converse(x, 8, c % cx, k % 8);
    vstd::arithmetic::div_mod::lemma_fundamental_div_mod_converse(y, 8, c / cx, k / 8);
    assert(x < cx * 8) by (nonlinear_arith)
        requires x == (c % cx) * 8 + k % 8, c % cx < cx, 0 <= k % 8 < 8;
    assert(y < cy * 8) by (nonlinear_arith)
        requires y == (c / cx) * 8 + k / 8, c / cx < cy, 0 <= k / 8 < 8, k < 64;
    assert(0 <= x && 0 <= y) by (nonlinear_arith)
        requires x == (c % cx) * 8 + k % 8, y == (c / cx) * 8 + k / 8, c % cx >= 0, c / cx >= 0, k % 8 >= 0, k / 8 >= 0;
    assert((c / cx) * cx + c % cx == c);
    assert((k / 8) * 8 + k % 8 == k);
}

/// Tiles in the same chunk at the same place are the same tile.
proof fn lemma_chunk_order_injective(cx: int, x1: int, y1: int, x2: int, y2: int)
    requires
        1 <= cx,
        0 <= x1 < cx * CHUNK,
        0 <= x2 < cx * CHUNK,
        0 <= y1,
        0 <= y2,
        chunk_order(cx, x1, y1) == chunk_order(cx, x2, y2),
    ensures
        x1 == x2 && y1 == y2,
{
    vstd::arithmetic::div_mod::lemma_fundamental_div_mod(x1, 8);
    vstd::arithmetic::div_mod::lemma_fundamental_div_mod(x2, 8);
    vstd::arithmetic::div_mod::lemma_fundamental_div_mod(y1, 8);
    vstd::arithmetic::div_mod::lemma_fundamental_div_mod(y2, 8);
    assert(x1 / 8 < cx && x2 / 8 < cx) by (nonlinear_arith)
        requires 0 <= x1 < cx * 8, 0 <= x2 < cx * 8, x1 == 8 * (x1 / 8) + x1 % 8, x2 == 8 * (x2 / 8) + x2 % 8, 0 <= x1 % 8, 0 <= x2 % 8;
    assert(0 <= x1 / 8 && 0 <= x2 / 8 && 0 <= y1 / 8 && 0 <= y2 / 8) by (nonlinear_arith)
        requires 0 <= x1, 0 <= x2, 0 <= y1, 0 <= y2, x1 == 8 * (x1 / 8) + x1 % 8, x2 == 8 * (x2 / 8) + x2 % 8, y1 == 8 * (y1 / 8) + y1 % 8, y2 == 8 * (y2 / 8) + y2 % 8, x1 % 8 < 8, x2 % 8 < 8, y1 % 8 < 8, y2 % 8 < 8;
    crate::map::lemma_index_injective(cx, x1 / 8, y1 / 8, x2 / 8, y2 / 8);
    assert(y1 % 8 == y2 % 8 && x1 % 8 == x2 % 8);
}

/// Writes the chosen pattern of every cell onto the map; tiles beyond the
/// last whole chunk become wall.
fn render(m: &mut TileMap, patterns: &Vec<Vec<TileType>>, grid: &Vec<usize>, cx: usize, cy: usize)
    requires
        old(m).wf(),
        cx == old(m).width as usize / CHUNK,
        cy == old(m).height as usize / CHUNK,
        1 <= cx,
        1 <= cy,
        grid@.len() == cx * cy,
        forall|c: int| 0 <= c < grid@.len() ==> #[trigger] grid@[c] < patterns@.len(),
        forall|k: int| 0 <= k < patterns@.len() ==> pattern_ok((#[trigger] patterns@[k])@),
    ensures
        final(m).wf(),
        final(m).width == old(m).width,
        final(m).height == old(m).height,
        final(m).depth == old(m).depth,
        forall|x: int, y: int|
            #![trigger final(m).at(x, y)]
            old(m).in_bounds(x, y) ==> final(m).at(x, y) == chunk_tile(patterns@, grid@, cx as int, cy as int, x, y),
{
    let n = m.tiles.len();
    let mut i: usize = 0;
    while i < n
        invariant
            m.wf(),
            m.width == old(m).width,
            m.height == old(m).height,
            m.depth == old(m).depth,
            n == m.tiles@.len(),
            i <= n,
            forall|j: int| 0 <= j < i ==> #[trigger] m.tiles@[j] == TileType::Wall,
        decreases n - i,
    {
        m.tiles.set(i, TileType::Wall);
        i += 1;
    }
    let ghost wi = m.width as int;
    let ghost hi = m.height as int;
    proof {
        assert forall|x: int, y: int| #![trigger m.at(x, y)] m.in_bounds(x, y) implies m.at(x, y) == TileType::Wall by {
            crate::map::lemma_index_in_range(wi, hi, x, y);
        }
    }
    let cells = grid.len();
    let mut c: usize = 0;
    while c < cells
        invariant
            cells == cx * cy,
            wi == m.width,
            hi == m.height,
            c <= cells,
            forall|x: int, y: int|
                #![trigger m.at(x, y)]
                m.in_bounds(x, y) ==> m.at(x, y) == (if x < cx * CHUNK && y < cy * CHUNK && chunk_order(cx as int, x, y).0 < c {
                    chunk_tile(patterns@, grid@, cx as int, cy as int, x, y)
                } else {
                    TileType::Wall
                }),
            m.wf(),
            m.width == old(m).width,
            m.height == old(m).height,
            m.depth == old(m).depth,
            cx == m.width as usize / CHUNK,
            cy == m.height as usize / CHUNK,
            1 <= cx,
            1 <= cy,
            grid@.len() == cx * cy,
            forall|j: int| 0 <= j < grid@.len() ==> #[trigger] grid@[j] < patterns@.len(),
            forall|k: int| 0 <= k < patterns@.len() ==> pattern_ok((#[trigger] patterns@[k])@),
        decreases cells - c,
    {
        proof {
            crate::map::lemma_index_decompose(cx as int, cy as int, c as int);
        }
        let ox = (c % cx) * CHUNK;
        let oy = (c / cx) * CHUNK;
        proof {
            assert(ox + CHUNK <= m.width) by (nonlinear_arith)
                requires ox == (c % cx) * CHUNK, c % cx < cx, cx == m.width as usize / CHUNK, m.width >= 0;
            assert(oy + CHUNK <= m.height) by (nonlinear_arith)
                requires oy == (c / cx) * CHUNK, c / cx < cy, cy == m.height as usize / CHUNK, m.height >= 0;
        }
        let pat = &patterns[grid[c]];
        let mut k: usize = 0;
        while k < CHUNK * CHUNK
            invariant
                m.wf(),
                m.width == old(m).width,
                m.height == old(m).height,
                m.depth == old(m).depth,
                ox + CHUNK <= m.width,
                oy + CHUNK <= m.height,
                pattern_ok(pat@),
                wi == m.width,
                hi == m.height,
                cells == cx * cy,
                c < cells,
                ox == (c % cx) * CHUNK,
                oy == (c / cx) * CHUNK,
                pat == patterns@[grid@[c as int] as int],
                grid@.len() == cx * cy,
                cx == m.width as usize / CHUNK,
                cy == m.height as usize / CHUNK,
                1 <= cx,
                1 <= cy,
                k <= CHUNK * CHUNK,
                forall|x: int, y: int|
                    #![trigger m.at(x, y)]
                    m.in_bounds(x, y) ==> m.at(x, y) == (if x < cx * CHUNK && y < cy * CHUNK && (chunk_order(cx as int, x, y).0 < c
                        || (chunk_order(cx as int, x, y).0 == c && chunk_order(cx as int, x, y).1 < k)) {
                        chunk_tile(patterns@, grid@, cx as int, cy as int, x, y)
                    } else {
                        TileType::Wall
                    }),
            decreases CHUNK * CHUNK - k,
        {
            let x = ox + k % CHUNK;
            let y = oy + k / CHUNK;
            let idx = m.xy_idx(x as i32, y as i32);
            let ghost before = *m;
            m.tiles.set(idx, pat[k]);
            proof {
                lemma_chunk_position(cx as int, cy as int, c as int, k as int);
                assert(chunk_tile(patterns@, grid@, cx as int, cy as int, x as int, y as int) == pat@[k as int]);
                assert(chunk_order(cx as int, x as int, y as int) == (c as int, k as int));
                assert forall|px: int, py: int|
                    #![trigger m.at(px, py)]
                    m.in_bounds(px, py) implies m.at(px, py) == (if px < cx * CHUNK && py < cy * CHUNK && (chunk_order(cx as int, px, py).0 < c
                        || (chunk_order(cx as int, px, py).0 == c && chunk_order(cx as int, px, py).1 < k + 1)) {
                        chunk_tile(patterns@, grid@, cx as int, cy as int, px, py)
                    } else {
                        TileType::Wall
                    }) by {
                    crate::map::lemma_index_in_range(wi, hi, px, py);
                    if crate::map::index_of(wi, px, py) == idx {
                        crate::map::lemma_index_injective(wi, px, py, x as int, y as int);
                        assert(m.at(px, py) == pat@[k as int]);
                    } else {
                        assert(m.at(px, py) == before.at(px, py));
                        if px < cx * CHUNK && py < cy * CHUNK && chunk_order(cx as int, px, py) == (c as int, k as int) {
                            lemma_chunk_order_injective(cx as int, px, py, x as int, y as int);
                        }
                    }
                }
            }
            k += 1;
        }
        c += 1;
    }
    proof {
        assert forall|x: int, y: int|
            #![trigger m.at(x, y)]
            m.in_bounds(x, y) && x < cx * CHUNK && y < cy * CHUNK implies chunk_order(cx as int, x, y).0 < c by {
            vstd::arithmetic::div_mod::lemma_fundamental_div_mod(x, 8);
            vstd::arithmetic::div_mod::lemma_fundamental_div_mod(y, 8);
            assert(0 <= x / 8 < cx && 0 <= y / 8 < cy) by (nonlinear_arith)
                requires 0 <= x < cx * 8, 0 <= y < cy * 8, x == 8 * (x / 8) + x % 8, y == 8 * (y / 8) + y % 8, 0 <= x % 8 < 8, 0 <= y % 8 < 8;
            crate::map::lemma_index_in_range(cx as int, cy as int, x / 8, y / 8);
        }
    }
}

/// Rebuilds the map out of its own 8 by 8 chunks (and their mirror images)
/// so that neighbouring chunks always meet along matching edges. Gives up
/// after `MAX_ATTEMPTS` contradictions, leaving the map as it was.
pub fn waveform_collapse(data: &mut BuilderMap, rng: &mut RandomNumberGenerator) -> (r: Result<(), BuildError>)
    requires
        old(data).wf(),
        old(data).map.closed(),
    ensures
        final(data).wf(),
        final(data).map.closed(),
        final(data).map.width == old(data).map.width,
        final(data).map.height == old(data).map.height,
        final(data).map.depth == old(data).map.depth,
        final(data).spawn_list == old(data).spawn_list,
        final(data).record_history == old(data).record_history,
        r is Err ==> r == Err::<(), BuildError>(BuildError::WaveformContradiction) && final(data).map == old(data).map,
        r is Ok && old(data).map.width >= CHUNK && old(data).map.height >= CHUNK ==> exists|pats: Seq<Vec<TileType>>, g: Seq<usize>|
            #[trigger] made_of_chunks(&final(data).map, pats, g),
        old(data).map.width < CHUNK || old(data).map.height < CHUNK ==> r is Ok && *final(data) == *old(data),
{
    let cx = data.map.width as usize / CHUNK;
    let cy = data.map.height as usize / CHUNK;
    if cx == 0 || cy == 0 {
        return Ok(());
    }
    let patterns = build_patterns(data);
    if patterns.len() == 0 || patterns.len() > MAX_PATTERNS {
        return Err(BuildError::WaveformContradiction);
    }
    let table = compat_table(&patterns);
    proof {
        assert(cx * cy <= data.map.width * data.map.height) by (nonlinear_arith)
            requires cx * 8 <= data.map.width, cy * 8 <= data.map.height, 1 <= cx, 1 <= cy;
    }
    let mut attempt: usize = 0;
    while attempt < MAX_ATTEMPTS
        invariant
            data.wf(),
            data.map.closed(),
            *data == *old(data),
            cx == data.map.width as usize / CHUNK,
            cy == data.map.height as usize / CHUNK,
            1 <= cx,
            1 <= cy,
            cx * cy <= i32::MAX,
            1 <= patterns@.len() <= MAX_PATTERNS,
            table_ok(patterns@, table@),
            forall|k: int| 0 <= k < patterns@.len() ==> pattern_ok((#[trigger] patterns@[k])@),
        decreases MAX_ATTEMPTS - attempt,
    {
        match solve_once(&patterns, &table, patterns.len(), cx, cy, rng) {
            Some(grid) => {
                render(&mut data.map, &patterns, &grid, cx, cy);
                let ghost rendered = data.map;
                data.map.close_boundary();
                data.take_snapshot();
                proof {
                    let ci = cx as int;
                    let cyi = cy as int;
                    assert(ci == old(data).map.width as int / CHUNK as int);
                    assert(cyi == old(data).map.height as int / CHUNK as int);
                    assert forall|x: int, y: int|
                        #![trigger data.map.at(x, y)]
                        data.map.in_bounds(x, y) && !data.map.on_edge(x, y) implies data.map.at(x, y)
                            == chunk_tile(patterns@, grid@, ci, cyi, x, y) by {
                        assert(rendered.at(x, y) == chunk_tile(patterns@, grid@, ci, cyi, x, y));
                    }
                    assert(made_of_chunks(&data.map, patterns@, grid@));
                }
                return Ok(());
            },
            None => {},
        }
        attempt += 1;
    }
    Err(BuildError::WaveformContradiction)
}

} // verus!
