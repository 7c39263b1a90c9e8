use vstd::prelude::*;
use crate::area::{XStart, YStart};
use crate::chain::{BuilderChain, InitialMapBuilder, MetaMapBuilder};
use crate::drunkard::{DrunkardSettings, DrunkSpawnMode};
use crate::map::{dims_ok, TileMap, index_of, lemma_index_decompose};
use crate::builder::BuilderMap;
use crate::chain::{chain_run, meta_spec};
use crate::spawning::SpawnTable;
use crate::area::{is_nearest_walkable, start_seed};
use crate::reach::{reachable, same_footing, lemma_reach_via, lemma_same_footing_reach, is_walk};
use crate::tiletype::{walkable, opaque};
use crate::fov::Point;
use crate::tiletype::TileType;
use crate::prefab::PrefabKind;

verus! {

/// Short walks from scattered points.
pub open spec fn winding_settings() -> DrunkardSettings {
    DrunkardSettings { spawn_mode: DrunkSpawnMode::Random, drunken_lifetime: 100, floor_percent: 40 }
}

/// The stages of `forest_builder`, in order.
pub open spec fn forest_stages() -> Seq<MetaMapBuilder> {
    seq![
                MetaMapBuilder::AreaStartingPosition(XStart::Center, YStart::Center),
                MetaMapBuilder::CullUnreachable,
                MetaMapBuilder::AreaStartingPosition(XStart::Left, YStart::Center),
                MetaMapBuilder::VoronoiSpawning,
            ]
}

/// The stages of `limestone_cavern_builder`, in order.
pub open spec fn limestone_stages() -> Seq<MetaMapBuilder> {
    seq![
                MetaMapBuilder::AreaStartingPosition(XStart::Center, YStart::Center),
                MetaMapBuilder::CullUnreachable,
                MetaMapBuilder::AreaStartingPosition(XStart::Left, YStart::Center),
                MetaMapBuilder::VoronoiSpawning,
                MetaMapBuilder::DistantExit,
                MetaMapBuilder::CaveDecorator,
            ]
}

/// The stages of `limestone_deep_cavern_builder`, in order.
pub open spec fn deep_limestone_stages() -> Seq<MetaMapBuilder> {
    seq![
                MetaMapBuilder::AreaStartingPosition(XStart::Left, YStart::Top),
                MetaMapBuilder::VoronoiSpawning,
                MetaMapBuilder::DistantExit,
                MetaMapBuilder::CaveDecorator,
                MetaMapBuilder::PrefabSectional(PrefabKind::OrcCamp),
            ]
}

/// The stages of `dwarf_fortress_builder`, in order.
pub open spec fn fortress_stages() -> Seq<MetaMapBuilder> {
    seq![
                MetaMapBuilder::RoomSorterCentral,
                MetaMapBuilder::RoomDrawer,
                MetaMapBuilder::BspCorridors,
                MetaMapBuilder::CorridorSpawner,
                MetaMapBuilder::AreaStartingPosition(XStart::Left, YStart::Top),
                MetaMapBuilder::CullUnreachable,
                MetaMapBuilder::AreaEndingPosition(XStart::Right, YStart::Bottom),
                MetaMapBuilder::VoronoiSpawning,
                MetaMapBuilder::DistantExit,
            ]
}

/// The stages of `dwarf_fortress_upper_reaches_builder`, in order.
pub open spec fn upper_reaches_stages() -> Seq<MetaMapBuilder> {
    seq![
                MetaMapBuilder::AreaStartingPosition(XStart::Center, YStart::Center),
                MetaMapBuilder::CullUnreachable,
                MetaMapBuilder::AreaStartingPosition(XStart::Left, YStart::Center),
                MetaMapBuilder::VoronoiSpawning,
                MetaMapBuilder::CaveDecorator,
                MetaMapBuilder::AreaStartingPosition(XStart::Left, YStart::Center),
                MetaMapBuilder::CullUnreachable,
                MetaMapBuilder::AreaEndingPosition(XStart::Right, YStart::Center),
            ]
}

/// The stages of `mushroom_builder`, in order.
pub open spec fn mushroom_stages() -> Seq<MetaMapBuilder> {
    seq![
                MetaMapBuilder::WaveformCollapse,
                MetaMapBuilder::AreaStartingPosition(XStart::Center, YStart::Center),
                MetaMapBuilder::CullUnreachable,
                MetaMapBuilder::AreaStartingPosition(XStart::Right, YStart::Center),
                MetaMapBuilder::AreaEndingPosition(XStart::Left, YStart::Center),
                MetaMapBuilder::VoronoiSpawning,
            ]
}

/// What every biome chain promises: a fresh map of the asked size and depth,
/// with the given stages.
pub open spec fn fresh_chain(c: &BuilderChain, depth: i32, width: i32, height: i32, starter: InitialMapBuilder, stages: Seq<MetaMapBuilder>) -> bool {
    &&& c.wf()
    &&& c.starter == Some(starter)
    &&& c.builders@ =~= stages
    &&& c.build_data.map.depth == depth
    &&& c.build_data.map.width == width
    &&& c.build_data.map.height == height
    &&& c.build_data.spawn_list@.len() == 0
    &&& c.build_data.starting_position is None
    &&& c.build_data.rooms is None
    &&& c.build_data.corridors is None
    &&& c.build_data.history@.len() == 0
    &&& !c.build_data.record_history
    &&& c.spawn_table.entries@.len() == 0
    &&& forall|i: int| 0 <= i < c.build_data.map.tiles@.len() ==> c.build_data.map.tiles@[i] == TileType::Wall
}

/// Woods: cellular caves, a start found from the middle, then from the left
/// edge once the unreachable parts are gone, and spawns.
pub fn forest_builder(new_depth: i32, width: i32, height: i32) -> (r: BuilderChain)
    requires
        dims_ok(width as int, height as int),
    ensures
        fresh_chain(&r, new_depth, width, height, InitialMapBuilder::CellularAutomata, forest_stages()),
        r.build_data.map.name@ == "Into the Woods"@,
{
    let name = "Into the Woods".to_string();
    proof {
        broadcast use vstd::string::to_string_from_display_ensures_for_str;
        assert(name@ == "Into the Woods"@);
    }
    let mut chain = BuilderChain::new(new_depth, width, height, name);
    chain.start_with(InitialMapBuilder::CellularAutomata);
    chain.with(MetaMapBuilder::AreaStartingPosition(XStart::Center, YStart::Center));
    chain.with(MetaMapBuilder::CullUnreachable);
    chain.with(MetaMapBuilder::AreaStartingPosition(XStart::Left, YStart::Center));
    chain.with(MetaMapBuilder::VoronoiSpawning);
    chain
}

/// Limestone caverns: winding drunkard's passages, culled from the centre,
/// a start on the left, spawns, the exit farthest away, and decoration.
pub fn limestone_cavern_builder(new_depth: i32, width: i32, height: i32) -> (r: BuilderChain)
    requires
        dims_ok(width as int, height as int),
    ensures
        fresh_chain(&r, new_depth, width, height, InitialMapBuilder::DrunkardsWalk(winding_settings()), limestone_stages()),
        r.build_data.map.name@ == "Limestone Caverns"@,
{
    let name = "Limestone Caverns".to_string();
    proof {
        broadcast use vstd::string::to_string_from_display_ensures_for_str;
        assert(name@ == "Limestone Caverns"@);
    }
    let mut chain = BuilderChain::new(new_depth, width, height, name);
    chain.start_with(InitialMapBuilder::DrunkardsWalk(DrunkardSettings::winding_passages()));
    chain.with(MetaMapBuilder::AreaStartingPosition(XStart::Center, YStart::Center));
    chain.with(MetaMapBuilder::CullUnreachable);
    chain.with(MetaMapBuilder::AreaStartingPosition(XStart::Left, YStart::Center));
    chain.with(MetaMapBuilder::VoronoiSpawning);
    chain.with(MetaMapBuilder::DistantExit);
    chain.with(MetaMapBuilder::CaveDecorator);
    chain
}

/// Deep limestone caverns: aggregation around the centre, a start found from
/// the top left, spawns, the exit farthest away, decoration and an orc camp
/// in the middle.
pub fn limestone_deep_cavern_builder(new_depth: i32, width: i32, height: i32) -> (r: BuilderChain)
    requires
        dims_ok(width as int, height as int),
    ensures
        fresh_chain(&r, new_depth, width, height, InitialMapBuilder::DlaCentralAttractor, deep_limestone_stages()),
        r.build_data.map.name@ == "Deep Limestone Caverns"@,
{
    let name = "Deep Limestone Caverns".to_string();
    proof {
        broadcast use vstd::string::to_string_from_display_ensures_for_str;
        assert(name@ == "Deep Limestone Caverns"@);
    }
    let mut chain = BuilderChain::new(new_depth, width, height, name);
    chain.start_with(InitialMapBuilder::DlaCentralAttractor);
    chain.with(MetaMapBuilder::AreaStartingPosition(XStart::Left, YStart::Top));
    chain.with(MetaMapBuilder::VoronoiSpawning);
    chain.with(MetaMapBuilder::DistantExit);
    chain.with(MetaMapBuilder::CaveDecorator);
    chain.with(MetaMapBuilder::PrefabSectional(PrefabKind::OrcCamp));
    chain
}

/// The dwarven fortress: rooms placed by binary space partition, ordered from
/// the middle outwards and carved, joined in that order by corridors that get
/// spawns of their own, a start found from the top left, culled,
/// stairs found from the bottom right, spawns and the exit farthest away.
pub fn dwarf_fortress_builder(new_depth: i32, width: i32, height: i32) -> (r: BuilderChain)
    requires
        dims_ok(width as int, height as int),
    ensures
        fresh_chain(&r, new_depth, width, height, InitialMapBuilder::BspDungeon, fortress_stages()),
        r.build_data.map.name@ == "Dwarven Fortress"@,
{
    let name = "Dwarven Fortress".to_string();
    proof {
        broadcast use vstd::string::to_string_from_display_ensures_for_str;
        assert(name@ == "Dwarven Fortress"@);
    }
    let mut chain = BuilderChain::new(new_depth, width, height, name);
    chain.start_with(InitialMapBuilder::BspDungeon);
    chain.with(MetaMapBuilder::RoomSorterCentral);
    chain.with(MetaMapBuilder::RoomDrawer);
    chain.with(MetaMapBuilder::BspCorridors);
    chain.with(MetaMapBuilder::CorridorSpawner);
    chain.with(MetaMapBuilder::AreaStartingPosition(XStart::Left, YStart::Top));
    chain.with(MetaMapBuilder::CullUnreachable);
    chain.with(MetaMapBuilder::AreaEndingPosition(XStart::Right, YStart::Bottom));
    chain.with(MetaMapBuilder::VoronoiSpawning);
    chain.with(MetaMapBuilder::DistantExit);
    chain
}

/// The upper reaches of the dwarf fort: decorated cellular caves, culled
/// from the centre and again from the left, with the exit found from the
/// middle of the right edge.
pub fn dwarf_fortress_upper_reaches_builder(new_depth: i32, width: i32, height: i32) -> (r: BuilderChain)
    requires
        dims_ok(width as int, height as int),
    ensures
        fresh_chain(&r, new_depth, width, height, InitialMapBuilder::CellularAutomata, upper_reaches_stages()),
        r.build_data.map.name@ == "Dwarf Fort - Upper Reaches"@,
{
    let name = "Dwarf Fort - Upper Reaches".to_string();
    proof {
        broadcast use vstd::string::to_string_from_display_ensures_for_str;
        assert(name@ == "Dwarf Fort - Upper Reaches"@);
    }
    let mut chain = BuilderChain::new(new_depth, width, height, name);
    chain.start_with(InitialMapBuilder::CellularAutomata);
    chain.with(MetaMapBuilder::AreaStartingPosition(XStart::Center, YStart::Center));
    chain.with(MetaMapBuilder::CullUnreachable);
    chain.with(MetaMapBuilder::AreaStartingPosition(XStart::Left, YStart::Center));
    chain.with(MetaMapBuilder::VoronoiSpawning);
    chain.with(MetaMapBuilder::CaveDecorator);
    chain.with(MetaMapBuilder::AreaStartingPosition(XStart::Left, YStart::Center));
    chain.with(MetaMapBuilder::CullUnreachable);
    chain.with(MetaMapBuilder::AreaEndingPosition(XStart::Right, YStart::Center));
    chain
}

/// The mushroom grove: cellular caves rebuilt by waveform collapse, culled
/// from the centre, a start on the right, the exit on the left, and spawns.
pub fn mushroom_builder(new_depth: i32, width: i32, height: i32) -> (r: BuilderChain)
    requires
        dims_ok(width as int, height as int),
    ensures
        fresh_chain(&r, new_depth, width, height, InitialMapBuilder::CellularAutomata, mushroom_stages()),
        r.build_data.map.name@ == "Into The Mushroom Grove"@,
{
    let name = "Into The Mushroom Grove".to_string();
    proof {
        broadcast use vstd::string::to_string_from_display_ensures_for_str;
        assert(name@ == "Into The Mushroom Grove"@);
    }
    let mut chain = BuilderChain::new(new_depth, width, height, name);
    chain.start_with(InitialMapBuilder::CellularAutomata);
    chain.with(MetaMapBuilder::WaveformCollapse);
    chain.with(MetaMapBuilder::AreaStartingPosition(XStart::Center, YStart::Center));
    chain.with(MetaMapBuilder::CullUnreachable);
    chain.with(MetaMapBuilder::AreaStartingPosition(XStart::Right, YStart::Center));
    chain.with(MetaMapBuilder::AreaEndingPosition(XStart::Left, YStart::Center));
    chain.with(MetaMapBuilder::VoronoiSpawning);
    chain
}

/// The chain for a level depth, where the library has one: the woods at 2,
/// the limestone caverns at 3, the deep limestone caverns at 4, the dwarf
/// fort's upper reaches at 5, the dwarven fortress at 6 and the mushroom
/// grove at 8. Other depths (the town, the mushroom entrance and exit, the
/// dark elf city, random levels) have no chain here: `None`.
pub fn level_builder(new_depth: i32, width: i32, height: i32) -> (r: Option<BuilderChain>)
    requires
        dims_ok(width as int, height as int),
    ensures
        r is Some <==> (new_depth == 2 || new_depth == 3 || new_depth == 4 || new_depth == 5 || new_depth == 6
            || new_depth == 8),
        new_depth == 2 ==> fresh_chain(&r->Some_0, new_depth, width, height, InitialMapBuilder::CellularAutomata, forest_stages()),
        new_depth == 3 ==> fresh_chain(&r->Some_0, new_depth, width, height, InitialMapBuilder::DrunkardsWalk(winding_settings()), limestone_stages()),
        new_depth == 4 ==> fresh_chain(&r->Some_0, new_depth, width, height, InitialMapBuilder::DlaCentralAttractor, deep_limestone_stages()),
        new_depth == 5 ==> fresh_chain(&r->Some_0, new_depth, width, height, InitialMapBuilder::CellularAutomata, upper_reaches_stages()),
        new_depth == 6 ==> fresh_chain(&r->Some_0, new_depth, width, height, InitialMapBuilder::BspDungeon, fortress_stages()),
        new_depth == 8 ==> fresh_chain(&r->Some_0, new_depth, width, height, InitialMapBuilder::CellularAutomata, mushroom_stages()),
{
    match new_depth {
        2 => Some(forest_builder(new_depth, width, height)),
        3 => Some(limestone_cavern_builder(new_depth, width, height)),
        4 => Some(limestone_deep_cavern_builder(new_depth, width, height)),
        5 => Some(dwarf_fortress_upper_reaches_builder(new_depth, width, height)),
        6 => Some(dwarf_fortress_builder(new_depth, width, height)),
        8 => Some(mushroom_builder(new_depth, width, height)),
        _ => None,
    }
}

/// The starting position chosen from tile `i`: the tile is walkable, and
/// the position names it.
proof fn lemma_start_tile(m: &TileMap, i: int, p: Point)
    requires
        m.wf(),
        0 <= i < m.tiles@.len(),
        walkable(m.tiles@[i]),
        p == (Point { x: (i % m.width as int) as i32, y: (i / m.width as int) as i32 }),
    ensures
        m.in_bounds(p.x as int, p.y as int),
        walkable(m.at(p.x as int, p.y as int)),
{
    lemma_index_decompose(m.width as int, m.height as int, i);
}

/// A run of the limestone caverns chain that succeeds leaves one connected
/// region: the start is walkable and every walkable tile can be walked to
/// from it.
pub proof fn lemma_limestone_connected(table: SpawnTable, pre: BuilderMap, states: Seq<BuilderMap>, post: BuilderMap)
    requires
        chain_run(InitialMapBuilder::DrunkardsWalk(winding_settings()), limestone_stages(), table, pre, states, post, Ok(())),
    ensures
        post.starting_position is Some,
        walkable(post.map.at(post.starting_position->Some_0.x as int, post.starting_position->Some_0.y as int)),
        forall|x: int, y: int|
            #![trigger post.map.at(x, y)]
            post.map.in_bounds(x, y) && walkable(post.map.at(x, y)) ==> reachable(
                &post.map,
                post.starting_position->Some_0.x as int,
                post.starting_position->Some_0.y as int,
                x,
                y,
            ),
{
    let st = limestone_stages();
    assert(st.len() == 6);
    let j0: int = 0;
    assert(meta_spec(st[j0], table, states[j0], states[j0 + 1], Ok(())));
    let j1: int = 1;
    assert(meta_spec(st[j1], table, states[j1], states[j1 + 1], Ok(())));
    let j2: int = 2;
    assert(meta_spec(st[j2], table, states[j2], states[j2 + 1], Ok(())));
    let j3: int = 3;
    assert(meta_spec(st[j3], table, states[j3], states[j3 + 1], Ok(())));
    let j4: int = 4;
    assert(meta_spec(st[j4], table, states[j4], states[j4 + 1], Ok(())));
    let j5: int = 5;
    assert(meta_spec(st[j5], table, states[j5], states[j5 + 1], Ok(())));
    assert(post == states[6]);
    let (m1, m2, m3, m5, m6) = (states[1].map, states[2].map, states[3].map, states[5].map, states[6].map);
    // first start, from the centre
    let i1 = choose|i: int|
        is_nearest_walkable(&states[0].map, start_seed(&states[0].map, XStart::Center, YStart::Center).0,
            start_seed(&states[0].map, XStart::Center, YStart::Center).1, i)
            && states[1].starting_position == Some(
            Point { x: (i % states[0].map.width as int) as i32, y: (i / states[0].map.width as int) as i32 },
        );
    let s1 = states[1].starting_position->Some_0;
    lemma_start_tile(&m1, i1, s1);
    let (s1x, s1y) = (s1.x as int, s1.y as int);
    // culling keeps the first start, which reaches itself
    let trivial = seq![(s1x, s1y)];
    assert(is_walk(&m1, trivial, s1x, s1y, s1x, s1y));
    assert(m2.at(s1x, s1y) == m1.at(s1x, s1y));
    // second start, from the left, on culled ground
    let i2 = choose|i: int|
        is_nearest_walkable(&m2, start_seed(&m2, XStart::Left, YStart::Center).0, start_seed(&m2, XStart::Left, YStart::Center).1, i)
            && states[3].starting_position == Some(Point { x: (i % m2.width as int) as i32, y: (i / m2.width as int) as i32 });
    let s2 = states[3].starting_position->Some_0;
    lemma_start_tile(&m2, i2, s2);
    let (s2x, s2y) = (s2.x as int, s2.y as int);
    assert(reachable(&m2, s1x, s1y, s2x, s2y));
    // the exit and the decoration keep every tile's footing
    let ie = choose|i: int| crate::exit::is_distant_exit(&states[4].map, s2x, s2y, i) && m5.tiles@ == states[4].map.tiles@.update(i, TileType::DownStairs);
    assert forall|i: int| 0 <= i < m3.tiles@.len() implies same_footing(#[trigger] m3.tiles@[i], m6.tiles@[i]) by {
        assert(same_footing(m5.tiles@[i], m6.tiles@[i]));
        if i == ie {
            assert(walkable(m3.tiles@[i]));
        }
    }
    assert forall|x: int, y: int|
        #![trigger post.map.at(x, y)]
        post.map.in_bounds(x, y) && walkable(post.map.at(x, y)) implies reachable(&post.map, s2x, s2y, x, y) by {
        crate::map::lemma_index_in_range(m3.width as int, m3.height as int, x, y);
        assert(same_footing(m3.tiles@[index_of(m3.width as int, x, y)], m6.tiles@[index_of(m3.width as int, x, y)]));
        assert(walkable(m2.at(x, y)));
        assert(reachable(&m2, s1x, s1y, x, y));
        lemma_reach_via(&m2, s1x, s1y, s2x, s2y, x, y);
        lemma_same_footing_reach(&m3, &m6, s2x, s2y, x, y);
    }
    crate::map::lemma_index_in_range(m3.width as int, m3.height as int, s2x, s2y);
    assert(same_footing(m3.tiles@[index_of(m3.width as int, s2x, s2y)], m6.tiles@[index_of(m3.width as int, s2x, s2y)]));
}

} // verus!
