use vstd::prelude::*;
use bracket_random::prelude::RandomNumberGenerator;
use crate::builder::BuilderMap;
use crate::fov::Point;
use crate::map::{TileMap, lemma_index_decompose};
use crate::random::{roll_dice, roll_range};
use crate::tiletype::TileType;

verus! {

/// Seed points that split the map into spawn regions.
pub const REGION_SEEDS: usize = 32;

/// Base number of spawns a region can roll.
pub const MAX_SPAWNS: i32 = 4;

/// Entity tags with weights: a tag is drawn with probability proportional to
/// its weight.
#[derive(Clone, Debug)]
pub struct SpawnTable {
    pub entries: Vec<(String, i32)>,
}

pub open spec fn total_weight(s: Seq<(String, i32)>) -> int
    decreases s.len(),
{
    if s.len() == 0 {
        0
    } else {
        total_weight(s.drop_last()) + s.last().1
    }
}

proof fn lemma_total_prefix(s: Seq<(String, i32)>, k: int)
    requires
        0 <= k <= s.len(),
        forall|j: int| 0 <= j < s.len() ==> (#[trigger] s[j]).1 >= 0,
    ensures
        0 <= total_weight(s.take(k)) <= total_weight(s),
    decreases s.len(),
{
    if s.len() > 0 {
        if k == s.len() {
            assert(s.take(k) =~= s);
        } else {
            assert(s.drop_last().take(k) =~= s.take(k));
        }
        lemma_total_prefix(s.drop_last(), if k == s.len() { k - 1 } else { k });
        assert(s.drop_last().take(s.len() - 1) =~= s.drop_last());
    }
}

impl SpawnTable {
    pub open spec fn wf(&self) -> bool {
        &&& forall|j: int| 0 <= j < self.entries@.len() ==> (#[trigger] self.entries@[j]).1 >= 0
        &&& total_weight(self.entries@) < i32::MAX
    }

    /// `tag` is a tag of the table with a positive weight.
    pub open spec fn offers(&self, tag: Seq<char>) -> bool {
        exists|j: int|
            0 <= j < self.entries@.len() && (#[trigger] self.entries@[j]).0@ == tag && self.entries@[j].1 > 0
    }

    pub fn new() -> (r: SpawnTable)
        ensures
            r.wf(),
            r.entries@.len() == 0,
    {
        SpawnTable { entries: Vec::new() }
    }

    /// The table with one more tag.
    pub fn add(self, name: String, weight: i32) -> (r: SpawnTable)
        requires
            self.wf(),
            0 <= weight,
            total_weight(self.entries@) + weight < i32::MAX,
        ensures
            r.wf(),
            r.entries@ == self.entries@.push((name, weight)),
    {
        let mut entries = self.entries;
        entries.push((name, weight));
        proof {
            assert(entries@.drop_last() =~= self.entries@);
        }
        SpawnTable { entries }
    }

    pub fn total(&self) -> (r: i32)
        requires
            self.wf(),
        ensures
            r == total_weight(self.entries@),
    {
        let mut sum: i32 = 0;
        let mut i: usize = 0;
        while i < self.entries.len()
            invariant
                self.wf(),
                i <= self.entries@.len(),
                sum == total_weight(self.entries@.take(i as int)),
            decreases self.entries.len() - i,
        {
            proof {
                assert(self.entries@.take(i as int + 1).drop_last() =~= self.entries@.take(i as int));
                lemma_total_prefix(self.entries@, i as int + 1);
            }
            sum = sum + self.entries[i].1;
            i += 1;
        }
        proof {
            assert(self.entries@.take(i as int) =~= self.entries@);
        }
        sum
    }

    /// Draws a tag; `None` exactly when no tag has a positive weight.
    pub fn roll(&self, rng: &mut RandomNumberGenerator) -> (r: Option<String>)
        requires
            self.wf(),
        ensures
            r is None <==> total_weight(self.entries@) == 0,
            r matches Some(tag) ==> self.offers(tag@),
    {
        let total = self.total();
        if total == 0 {
            return None;
        }
        proof {
            lemma_total_prefix(self.entries@, 0);
        }
        let r0 = roll_dice(rng, 1, total) - 1;
        let mut r = r0;
        let mut i: usize = 0;
        while i < self.entries.len()
            invariant
                self.wf(),
                i <= self.entries@.len(),
                0 <= r0 < total,
                total == total_weight(self.entries@),
                0 <= r,
                r + total_weight(self.entries@.take(i as int)) == r0,
            decreases self.entries.len() - i,
        {
            proof {
                assert(self.entries@.take(i as int + 1).drop_last() =~= self.entries@.take(i as int));
            }
            if r < self.entries[i].1 {
                let tag = self.entries[i].0.clone();
                proof {
                    assert(self.entries@[i as int].0@ == tag@);
                }
                return Some(tag);
            }
            r = r - self.entries[i].1;
            i += 1;
        }
        proof {
            assert(self.entries@.take(i as int) =~= self.entries@);
        }
        None
    }
}

/// A spawn entry the spawning stage may add: a floor tile other than the
/// start, with a tag that the table offers.
pub open spec fn spawn_ok(m: &TileMap, start: Option<Point>, table: &SpawnTable, e: (usize, String)) -> bool {
    spawn_tile_ok(m, start, e.0) && table.offers(e.1@)
}

/// A floor tile other than the start.
pub open spec fn spawn_tile_ok(m: &TileMap, start: Option<Point>, i: usize) -> bool {
    &&& i < m.tiles@.len()
    &&& m.tiles@[i as int] == TileType::Floor
    &&& (start matches Some(p) ==> i != m.idx(p.x as int, p.y as int))
}

pub open spec fn spawns_added(old_list: Seq<(usize, String)>, new_list: Seq<(usize, String)>, m: &TileMap, start: Option<Point>, table: &SpawnTable) -> bool {
    &&& old_list.len() <= new_list.len()
    &&& forall|k: int| 0 <= k < old_list.len() ==> new_list[k] == old_list[k]
    &&& forall|k: int| old_list.len() <= k < new_list.len() ==> spawn_ok(m, start, table, #[trigger] new_list[k])
}

/// Spawns into one region: a roll of 1d(MAX_SPAWNS + 3), plus the depth,
/// minus four, picks how many distinct tiles of the region get an entity.
fn spawn_region(data: &mut BuilderMap, rng: &mut RandomNumberGenerator, table: &SpawnTable, area: Vec<usize>)
    requires
        old(data).wf(),
        table.wf(),
        area@.len() <= old(data).map.tiles@.len(),
        forall|k: int|
            0 <= k < area@.len() ==> spawn_tile_ok(&old(data).map, old(data).starting_position, #[trigger] area@[k]),
    ensures
        final(data).map == old(data).map,
        final(data).starting_position == old(data).starting_position,
        final(data).rooms == old(data).rooms,
        final(data).corridors == old(data).corridors,
        final(data).width == old(data).width,
        final(data).height == old(data).height,
        final(data).record_history == old(data).record_history,
        final(data).wf(),
        spawns_added(old(data).spawn_list@, final(data).spawn_list@, &old(data).map, old(data).starting_position, table),
{
    let mut area = area;
    let depth = data.map.depth as i64;
    let roll = roll_dice(rng, 1, MAX_SPAWNS + 3) as i64;
    let wanted = roll + depth - 4;
    let mut left: usize = if wanted <= 0 {
        0
    } else if wanted as u64 >= area.len() as u64 {
        area.len()
    } else {
        wanted as usize
    };
    let ghost list0 = data.spawn_list@;
    while left > 0 && area.len() > 0
        invariant
            data.wf(),
            data.map == old(data).map,
            data.starting_position == old(data).starting_position,
            data.rooms == old(data).rooms,
            data.corridors == old(data).corridors,
            data.width == old(data).width,
            data.height == old(data).height,
            data.record_history == old(data).record_history,
            table.wf(),
            list0 == old(data).spawn_list@,
            area@.len() <= data.map.tiles@.len(),
            forall|k: int|
                0 <= k < area@.len() ==> spawn_tile_ok(&old(data).map, old(data).starting_position, #[trigger] area@[k]),
            spawns_added(list0, data.spawn_list@, &old(data).map, old(data).starting_position, table),
        decreases left,
    {
        let j = roll_range(rng, 0, area.len() as i32) as usize;
        let ghost a0 = area@;
        let idx = area.remove(j);
        proof {
            assert(spawn_tile_ok(&old(data).map, old(data).starting_position, a0[j as int]));
        }
        match table.roll(rng) {
            Some(tag) => {
                data.spawn_list.push((idx, tag));
            },
            None => {},
        }
        proof {
            assert forall|k: int| 0 <= k < area@.len() implies spawn_tile_ok(&old(data).map, old(data).starting_position, #[trigger] area@[k]) by {
                if k < j {
                    assert(area@[k] == a0[k]);
                } else {
                    assert(area@[k] == a0[k + 1]);
                }
            }
        }
        left -= 1;
    }
}

fn manhattan(x1: i32, y1: i32, x2: i32, y2: i32) -> (r: i64)
    ensures
        r == (if x1 >= x2 { x1 - x2 } else { x2 - x1 }) + (if y1 >= y2 { y1 - y2 } else { y2 - y1 }),
{
    let dx: i64 = if x1 >= x2 { x1 as i64 - x2 as i64 } else { x2 as i64 - x1 as i64 };
    let dy: i64 = if y1 >= y2 { y1 as i64 - y2 as i64 } else { y2 as i64 - y1 as i64 };
    dx + dy
}

/// Splits the floor (the start excepted) into regions around `REGION_SEEDS`
/// random seed points, each tile going to its nearest seed by Manhattan
/// distance (the first such seed on ties), and spawns into each region from
/// `table`.
pub fn voronoi_spawning(data: &mut BuilderMap, rng: &mut RandomNumberGenerator, table: &SpawnTable)
    requires
        old(data).wf(),
        table.wf(),
    ensures
        final(data).wf(),
        final(data).map == old(data).map,
        final(data).starting_position == old(data).starting_position,
        final(data).width == old(data).width,
        final(data).height == old(data).height,
        final(data).record_history == old(data).record_history,
        spawns_added(old(data).spawn_list@, final(data).spawn_list@, &old(data).map, old(data).starting_position, table),
{
    let w = data.map.width;
    let h = data.map.height;
    if w < 3 || h < 3 {
        return;
    }
    let mut seeds: Vec<(i32, i32)> = Vec::new();
    let mut s: usize = 0;
    while s < REGION_SEEDS
        invariant
            seeds@.len() == s,
            s <= REGION_SEEDS,
            w >= 3,
            h >= 3,
        decreases REGION_SEEDS - s,
    {
        let sx = roll_range(rng, 1, w - 1);
        let sy = roll_range(rng, 1, h - 1);
        seeds.push((sx, sy));
        s += 1;
    }
    let start_idx: Option<usize> = match data.starting_position {
        Some(p) => Some(data.map.xy_idx(p.x, p.y)),
        None => None,
    };
    let n = data.map.tiles.len();
    let wu = data.map.width as usize;
    let mut region: Vec<usize> = Vec::new();
    let mut i: usize = 0;
    while i < n
        invariant
            *data == *old(data),
            data.wf(),
            n == data.map.tiles@.len(),
            wu == data.map.width,
            seeds@.len() == REGION_SEEDS,
            start_idx matches Some(si) ==> data.starting_position matches Some(p) && si == data.map.idx(p.x as int, p.y as int),
            start_idx is None ==> data.starting_position is None,
            region@.len() == i,
            i <= n,
            forall|j: int| 0 <= j < i && (#[trigger] region@[j]) < REGION_SEEDS ==> spawn_tile_ok(&data.map, data.starting_position, j as usize),
        decreases n - i,
    {
        let is_start = match start_idx {
            Some(si) => si == i,
            None => false,
        };
        if data.map.tiles[i] == TileType::Floor && !is_start {
            let x = (i % wu) as i32;
            let y = (i / wu) as i32;
            let mut best: usize = 0;
            let mut best_d: i64 = manhattan(x, y, seeds[0].0, seeds[0].1);
            let mut k: usize = 1;
            while k < REGION_SEEDS
                invariant
                    seeds@.len() == REGION_SEEDS,
                    best < REGION_SEEDS,
                    1 <= k <= REGION_SEEDS,
                decreases REGION_SEEDS - k,
            {
                let dk = manhattan(x, y, seeds[k].0, seeds[k].1);
                if dk < best_d {
                    best = k;
                    best_d = dk;
                }
                k += 1;
            }
            region.push(best);
        } else {
            region.push(REGION_SEEDS);
        }
        i += 1;
    }
    let ghost list0 = data.spawn_list@;
    let ghost m0 = data.map;
    let ghost sp0 = data.starting_position;
    let mut r: usize = 0;
    while r < REGION_SEEDS
        invariant
            data.wf(),
            data.map == m0,
            m0 == old(data).map,
            data.starting_position == sp0,
            sp0 == old(data).starting_position,
            data.width == old(data).width,
            data.height == old(data).height,
            data.record_history == old(data).record_history,
            list0 == old(data).spawn_list@,
            table.wf(),
            n == m0.tiles@.len(),
            region@.len() == n,
            forall|j: int| 0 <= j < n && (#[trigger] region@[j]) < REGION_SEEDS ==> spawn_tile_ok(&m0, sp0, j as usize),
            spawns_added(list0, data.spawn_list@, &m0, sp0, table),
        decreases REGION_SEEDS - r,
    {
        let mut area: Vec<usize> = Vec::new();
        let mut j: usize = 0;
        while j < n
            invariant
                region@.len() == n,
                r < REGION_SEEDS,
                j <= n,
                area@.len() <= j,
                forall|q: int| 0 <= q < n && (#[trigger] region@[q]) < REGION_SEEDS ==> spawn_tile_ok(&m0, sp0, q as usize),
                forall|k: int| 0 <= k < area@.len() ==> spawn_tile_ok(&m0, sp0, #[trigger] area@[k]),
            decreases n - j,
        {
            if region[j] == r {
                area.push(j);
            }
            j += 1;
        }
        let ghost list1 = data.spawn_list@;
        spawn_region(data, rng, table, area);
        proof {
            assert forall|k: int| list0.len() <= k < data.spawn_list@.len() implies spawn_ok(&m0, sp0, table, #[trigger] data.spawn_list@[k]) by {
                if k < list1.len() {
                    assert(data.spawn_list@[k] == list1[k]);
                }
            }
        }
        r += 1;
    }
}

/// Spawns into each recorded corridor, counting only its floor tiles other
/// than the start.
pub fn corridor_spawner(data: &mut BuilderMap, rng: &mut RandomNumberGenerator, table: &SpawnTable)
    requires
        old(data).wf(),
        table.wf(),
    ensures
        final(data).wf(),
        final(data).map == old(data).map,
        final(data).starting_position == old(data).starting_position,
        final(data).rooms == old(data).rooms,
        final(data).width == old(data).width,
        final(data).height == old(data).height,
        final(data).record_history == old(data).record_history,
        spawns_added(old(data).spawn_list@, final(data).spawn_list@, &old(data).map, old(data).starting_position, table),
{
    let corridors = match &data.corridors {
        Some(cs) => cs.clone(),
        None => Vec::new(),
    };
    let ghost list0 = data.spawn_list@;
    let ghost m0 = data.map;
    let ghost sp0 = data.starting_position;
    let start_idx: Option<usize> = match data.starting_position {
        Some(p) => Some(data.map.xy_idx(p.x, p.y)),
        None => None,
    };
    let n = data.map.tiles.len();
    let mut c: usize = 0;
    while c < corridors.len()
        invariant
            data.wf(),
            data.map == m0,
            m0 == old(data).map,
            data.starting_position == sp0,
            sp0 == old(data).starting_position,
            data.rooms == old(data).rooms,
            data.width == old(data).width,
            data.height == old(data).height,
            data.record_history == old(data).record_history,
            list0 == old(data).spawn_list@,
            table.wf(),
            n == m0.tiles@.len(),
            start_idx matches Some(si) ==> sp0 matches Some(p) && si == m0.idx(p.x as int, p.y as int),
            start_idx is None ==> sp0 is None,
            spawns_added(list0, data.spawn_list@, &m0, sp0, table),
        decreases corridors.len() - c,
    {
        let tiles = corridors[c].clone();
        let mut area: Vec<usize> = Vec::new();
        let mut k: usize = 0;
        while k < tiles.len()
            invariant
                data.map == m0,
                n == m0.tiles@.len(),
                start_idx matches Some(si) ==> sp0 matches Some(p) && si == m0.idx(p.x as int, p.y as int),
                start_idx is None ==> sp0 is None,
                area@.len() <= k,
                k <= tiles@.len(),
                area@.len() <= n,
                forall|q: int| 0 <= q < area@.len() ==> spawn_tile_ok(&m0, sp0, #[trigger] area@[q]),
            decreases tiles.len() - k,
        {
            let t = tiles[k];
            let is_start = match start_idx {
                Some(si) => si == t,
                None => false,
            };
            if t < n && !is_start && data.map.tiles[t] == TileType::Floor && area.len() < n {
                area.push(t);
            }
            k += 1;
        }
        let ghost list1 = data.spawn_list@;
        spawn_region(data, rng, table, area);
        proof {
            assert forall|k: int| list0.len() <= k < data.spawn_list@.len() implies spawn_ok(&m0, sp0, table, #[trigger] data.spawn_list@[k]) by {
                if k < list1.len() {
                    assert(data.spawn_list@[k] == list1[k]);
                }
            }
        }
        c += 1;
    }
}

} // verus!
