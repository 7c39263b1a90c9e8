use vstd::prelude::*;
use bracket_random::prelude::RandomNumberGenerator;
use crate::builder::BuilderMap;
use crate::fov::Point;
use crate::random::roll_dice;
use crate::tiletype::TileType;

verus! {

/// Where each new walker begins.
#[derive(PartialEq, Eq, Structural, Copy, Clone, Debug)]
pub enum DrunkSpawnMode {
    /// Always at the centre of the map.
    StartingPoint,
    /// The first at the centre, the others at random interior points.
    Random,
}

/// How a drunkard's walk carves the map.
#[derive(PartialEq, Eq, Structural, Copy, Clone, Debug)]
pub struct DrunkardSettings {
    pub spawn_mode: DrunkSpawnMode,
    /// Steps each walker takes.
    pub drunken_lifetime: i32,
    /// Share of the map, in percent, that must be floor before carving stops.
    pub floor_percent: i32,
}

impl DrunkardSettings {
    /// Long walks from the centre that open up wide areas.
    pub fn open_area() -> (r: DrunkardSettings)
        ensures
            r == (DrunkardSettings { spawn_mode: DrunkSpawnMode::StartingPoint, drunken_lifetime: 400, floor_percent: 50 }),
    {
        DrunkardSettings { spawn_mode: DrunkSpawnMode::StartingPoint, drunken_lifetime: 400, floor_percent: 50 }
    }

    /// Long walks from scattered points.
    pub fn open_halls() -> (r: DrunkardSettings)
        ensures
            r == (DrunkardSettings { spawn_mode: DrunkSpawnMode::Random, drunken_lifetime: 400, floor_percent: 50 }),
    {
        DrunkardSettings { spawn_mode: DrunkSpawnMode::Random, drunken_lifetime: 400, floor_percent: 50 }
    }

    /// Many short walks from scattered points: narrow, twisting passages.
    pub fn winding_passages() -> (r: DrunkardSettings)
        ensures
            r == (DrunkardSettings { spawn_mode: DrunkSpawnMode::Random, drunken_lifetime: 100, floor_percent: 40 }),
    {
        DrunkardSettings { spawn_mode: DrunkSpawnMode::Random, drunken_lifetime: 100, floor_percent: 40 }
    }
}

/// Number of floor tiles in `tiles`.
pub open spec fn floor_count(tiles: Seq<TileType>) -> nat
    decreases tiles.len(),
{
    if tiles.len() == 0 {
        0
    } else {
        floor_count(tiles.drop_last()) + if tiles.last() == TileType::Floor {
            1nat
        } else {
            0nat
        }
    }
}

proof fn lemma_floor_count_bound(tiles: Seq<TileType>)
    ensures
        floor_count(tiles) <= tiles.len(),
    decreases tiles.len(),
{
    if tiles.len() > 0 {
        lemma_floor_count_bound(tiles.drop_last());
    }
}

pub fn count_floor(tiles: &Vec<TileType>) -> (r: usize)
    ensures
        r == floor_count(tiles@),
{
    let mut c: usize = 0;
    let mut i: usize = 0;
    while i < tiles.len()
        invariant
            i <= tiles@.len(),
            c == floor_count(tiles@.take(i as int)),
        decreases tiles.len() - i,
    {
        proof {
            assert(tiles@.take(i as int + 1).drop_last() =~= tiles@.take(i as int));
            lemma_floor_count_bound(tiles@.take(i as int));
        }
        if tiles[i] == TileType::Floor {
            c += 1;
        }
        i += 1;
    }
    proof {
        assert(tiles@.take(i as int) =~= tiles@);
    }
    c
}

/// Carves the map with random walkers: each walker starts at the centre or a
/// random interior point, per `settings`, and turns every tile it steps on
/// into floor. Walkers are sent out until the floor quota is met, or until
/// as many walkers as there are tiles have walked. The starting position is
/// set to the centre and the outer ring stays wall.
pub fn build_drunkard(data: &mut BuilderMap, rng: &mut RandomNumberGenerator, settings: DrunkardSettings)
    requires
        old(data).wf(),
    ensures
        final(data).wf(),
        final(data).map.closed(),
        final(data).map.width == old(data).map.width,
        final(data).map.height == old(data).map.height,
        final(data).map.depth == old(data).map.depth,
        final(data).spawn_list == old(data).spawn_list,
        final(data).record_history == old(data).record_history,
        old(data).map.width >= 5 && old(data).map.height >= 5 ==> final(data).starting_position
            == Some(Point { x: (old(data).map.width / 2) as i32, y: (old(data).map.height / 2) as i32 })
            && final(data).map.at(old(data).map.width / 2, old(data).map.height / 2) == TileType::Floor,
        old(data).map.width < 5 || old(data).map.height < 5 ==> final(data).starting_position
            == old(data).starting_position,
{
    let w = data.map.width;
    let h = data.map.height;
    if w < 5 || h < 5 {
        data.map.close_boundary();
        return;
    }
    let cx = w / 2;
    let cy = h / 2;
    data.starting_position = Some(Point { x: cx, y: cy });
    let n = data.map.tiles.len();
    let start_idx = data.map.xy_idx(cx, cy);
    data.map.tiles.set(start_idx, TileType::Floor);
    let percent: usize = if settings.floor_percent < 0 {
        0
    } else if settings.floor_percent > 100 {
        100
    } else {
        settings.floor_percent as usize
    };
    proof {
        assert(n <= i32::MAX);
        assert((n as u64) * (percent as u64) <= (n as u64) * 100) by (nonlinear_arith)
            requires percent <= 100;
    }
    let desired = ((n as u64) * (percent as u64) / 100) as usize;
    let mut floor_tiles = count_floor(&data.map.tiles);
    let mut digger_count: usize = 0;
    while floor_tiles < desired && digger_count < n
        invariant
            data.wf(),
            data.map.width == w,
            data.map.height == h,
            w >= 5,
            h >= 5,
            cx == w / 2,
            cy == h / 2,
            data.map.width == old(data).map.width,
            data.map.height == old(data).map.height,
            data.map.depth == old(data).map.depth,
            data.spawn_list == old(data).spawn_list,
            data.record_history == old(data).record_history,
            data.starting_position == Some(Point { x: cx, y: cy }),
            n == data.map.tiles@.len(),
            start_idx == data.map.idx(cx as int, cy as int),
            start_idx < n,
            data.map.tiles@[start_idx as int] == TileType::Floor,
        decreases n - digger_count,
    {
        let mut x: i32 = cx;
        let mut y: i32 = cy;
        if digger_count > 0 && settings.spawn_mode == DrunkSpawnMode::Random {
            x = roll_dice(rng, 1, w - 3) + 1;
            y = roll_dice(rng, 1, h - 3) + 1;
        }
        let mut life: i32 = settings.drunken_lifetime;
        while life > 0
            invariant
                data.wf(),
                data.map.width == w,
                data.map.height == h,
                w >= 5,
                h >= 5,
                1 <= x <= w - 2,
                1 <= y <= h - 2,
                data.map.depth == old(data).map.depth,
                data.spawn_list == old(data).spawn_list,
                data.record_history == old(data).record_history,
                data.starting_position == Some(Point { x: cx, y: cy }),
                n == data.map.tiles@.len(),
                start_idx < n,
                data.map.tiles@[start_idx as int] == TileType::Floor,
            decreases life,
        {
            let idx = data.map.xy_idx(x, y);
            data.map.tiles.set(idx, TileType::Floor);
            let direction = roll_dice(rng, 1, 4);
            if direction == 1 {
                if x > 2 {
                    x -= 1;
                }
            } else if direction == 2 {
                if x < w - 2 {
                    x += 1;
                }
            } else if direction == 3 {
                if y > 2 {
                    y -= 1;
                }
            } else {
                if y < h - 2 {
                    y += 1;
                }
            }
            life -= 1;
        }
        data.take_snapshot();
        digger_count += 1;
        floor_tiles = count_floor(&data.map.tiles);
    }
    data.map.close_boundary();
    data.take_snapshot();
    proof {
        assert(data.map.at(cx as int, cy as int) == TileType::Floor);
    }
}

} // verus!
