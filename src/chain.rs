use vstd::prelude::*;
use bracket_random::prelude::RandomNumberGenerator;
use crate::area::{XStart, YStart, area_starting_position, area_ending_position};
use crate::builder::{BuilderMap, BuildError};
use crate::cellular::{build_cellular, cellular_result};
use crate::cull::cull_unreachable;
use crate::decorator::cave_decorator;
use crate::drunkard::{DrunkardSettings, build_drunkard};
use crate::dla::build_dla;
use crate::exit::distant_exit;
use crate::wfc::waveform_collapse;
use crate::sorter::sort_rooms_central;
use crate::maze::build_maze;
use crate::voronoi::{build_voronoi, voronoi_result};
use crate::doors::{door_placement, room_corner_rounding};
use crate::bsp::bsp_dungeon;
use crate::rooms::{room_drawer, bsp_corridors, room_based_starting_position};
use crate::prefab::{PrefabKind, apply_sectional, section};
use crate::map::{TileMap, dims_ok};
use crate::spawning::{SpawnTable, voronoi_spawning, corridor_spawner};
use crate::tiletype::TileType;
use crate::area::{has_walkable, is_nearest_walkable, start_seed};
use crate::bsp::rooms_ok;
use crate::cull::culled;
use crate::decorator::decorated;
use crate::doors::{door_fits, door_indices, round_rooms};
use crate::exit::{has_distant_tile, is_distant_exit};
use crate::fov::Point;
use crate::prefab::{PrefabSection, stamped};
use crate::reach::{reachable, same_footing};
use crate::rooms::in_room;
use crate::sorter::sorted_by_centre;
use crate::spawning::spawns_added;
use crate::wfc::{made_of_chunks, CHUNK};

verus! {

/// A stage that draws a first map from nothing.
#[derive(PartialEq, Eq, Structural, Copy, Clone, Debug)]
pub enum InitialMapBuilder {
    CellularAutomata,
    DrunkardsWalk(DrunkardSettings),
    /// Diffusion-limited aggregation around the centre of the map.
    DlaCentralAttractor,
    /// Rooms placed by binary space partition (the map itself stays wall).
    BspDungeon,
    /// Open Voronoi cells divided by thin walls.
    VoronoiCells,
    /// A maze carved by randomised depth-first search.
    Maze,
}

/// A stage that reworks the map and the decisions made so far.
#[derive(PartialEq, Eq, Structural, Copy, Clone, Debug)]
pub enum MetaMapBuilder {
    AreaStartingPosition(XStart, YStart),
    AreaEndingPosition(XStart, YStart),
    CullUnreachable,
    DistantExit,
    VoronoiSpawning,
    CaveDecorator,
    PrefabSectional(PrefabKind),
    RoomDrawer,
    BspCorridors,
    RoomBasedStartingPosition,
    DoorPlacement,
    RoomCornerRounder,
    RoomSorterCentral,
    CorridorSpawner,
    WaveformCollapse,
}

/// What every stage keeps: a well-formed context whose map has its outer
/// ring walled, the same size and depth.
pub open spec fn stage_frame(pre: BuilderMap, post: BuilderMap) -> bool {
    &&& post.wf()
    &&& post.map.closed()
    &&& post.map.width == pre.map.width
    &&& post.map.height == pre.map.height
    &&& post.map.depth == pre.map.depth
    &&& post.record_history == pre.record_history
}

/// What the initial stage `starter` does to the context `pre`, giving `post`.
pub open spec fn initial_spec(starter: InitialMapBuilder, pre: BuilderMap, post: BuilderMap) -> bool {
    let w = pre.map.width;
    let h = pre.map.height;
    &&& stage_frame(pre, post)
    &&& post.spawn_list == pre.spawn_list
    &&& match starter {
        InitialMapBuilder::CellularAutomata => {
            &&& post.starting_position == pre.starting_position
            &&& exists|noise: Seq<TileType>| #[trigger] cellular_result(&pre.map, &post.map, noise)
        },
        InitialMapBuilder::VoronoiCells => {
            &&& post.starting_position == pre.starting_position
            &&& w >= 3 && h >= 3 ==> exists|seeds: Seq<(i32, i32)>, cell: Seq<usize>| #[trigger] voronoi_result(&pre.map, &post.map, seeds, cell)
        },
        InitialMapBuilder::DrunkardsWalk(_) | InitialMapBuilder::DlaCentralAttractor => {
            &&& w >= 5 && h >= 5 ==> post.starting_position == Some(Point { x: (w / 2) as i32, y: (h / 2) as i32 })
                && post.map.at(w / 2, h / 2) == TileType::Floor
            &&& (w < 5 || h < 5) ==> post.starting_position == pre.starting_position
        },
        InitialMapBuilder::Maze => {
            &&& w >= 8 && h >= 8 ==> post.starting_position == Some(Point { x: 2, y: 2 }) && post.map.at(2, 2) == TileType::Floor
            &&& (w < 8 || h < 8) ==> post.starting_position == pre.starting_position
        },
        InitialMapBuilder::BspDungeon => {
            &&& post.starting_position == pre.starting_position
            &&& post.rooms matches Some(rs) && rooms_ok(rs@, w as int, h as int)
            &&& forall|x: int, y: int|
                #![trigger post.map.at(x, y)]
                pre.map.in_bounds(x, y) && !pre.map.on_edge(x, y) ==> post.map.at(x, y) == pre.map.at(x, y)
        },
    }
}

/// What the meta stage `stage` does to the context `pre`, drawing spawns
/// from `table`, giving `post` and the result `r`.
pub open spec fn meta_spec(stage: MetaMapBuilder, table: SpawnTable, pre: BuilderMap, post: BuilderMap, r: Result<(), BuildError>) -> bool {
    &&& stage_frame(pre, post)
    &&& match stage {
        MetaMapBuilder::AreaStartingPosition(x, y) => {
            &&& post.map == pre.map
            &&& post.spawn_list == pre.spawn_list
            &&& (r is Ok <==> has_walkable(&pre.map))
            &&& r is Err ==> r == Err::<(), BuildError>(BuildError::NoWalkableTile) && post.starting_position == pre.starting_position
            &&& r is Ok ==> exists|i: int|
                is_nearest_walkable(&pre.map, start_seed(&pre.map, x, y).0, start_seed(&pre.map, x, y).1, i)
                    && post.starting_position == Some(Point { x: (i % pre.map.width as int) as i32, y: (i / pre.map.width as int) as i32 })
        },
        MetaMapBuilder::AreaEndingPosition(x, y) => {
            &&& post.spawn_list == pre.spawn_list
            &&& post.starting_position == pre.starting_position
            &&& (r is Ok <==> has_walkable(&pre.map))
            &&& r is Err ==> r == Err::<(), BuildError>(BuildError::NoWalkableTile) && post.map == pre.map
            &&& r is Ok ==> exists|i: int|
                is_nearest_walkable(&pre.map, start_seed(&pre.map, x, y).0, start_seed(&pre.map, x, y).1, i)
                    && post.map.tiles@ == pre.map.tiles@.update(i, TileType::DownStairs)
        },
        MetaMapBuilder::CullUnreachable => {
            &&& post.spawn_list == pre.spawn_list
            &&& post.starting_position == pre.starting_position
            &&& (r is Err <==> pre.starting_position is None)
            &&& r is Err ==> r == Err::<(), BuildError>(BuildError::NoStartingPosition) && post.map == pre.map
            &&& r is Ok ==> culled(&pre.map, &post.map, pre.starting_position->Some_0.x as int, pre.starting_position->Some_0.y as int)
            &&& r is Ok ==> forall|x: int, y: int|
                #![trigger post.map.at(x, y)]
                post.map.in_bounds(x, y) && crate::tiletype::walkable(post.map.at(x, y)) ==> reachable(
                    &post.map,
                    pre.starting_position->Some_0.x as int,
                    pre.starting_position->Some_0.y as int,
                    x,
                    y,
                )
        },
        MetaMapBuilder::DistantExit => {
            &&& post.spawn_list == pre.spawn_list
            &&& post.starting_position == pre.starting_position
            &&& pre.starting_position is None ==> r == Err::<(), BuildError>(BuildError::NoStartingPosition)
            &&& r is Err ==> post.map == pre.map
            &&& pre.starting_position matches Some(s) ==> {
                &&& (r is Ok <==> has_distant_tile(&pre.map, s.x as int, s.y as int))
                &&& r is Err ==> r == Err::<(), BuildError>(BuildError::NoReachableExit)
                &&& r is Ok ==> exists|i: int|
                    is_distant_exit(&pre.map, s.x as int, s.y as int, i) && post.map.tiles@ == pre.map.tiles@.update(i, TileType::DownStairs)
            }
        },
        MetaMapBuilder::VoronoiSpawning | MetaMapBuilder::CorridorSpawner => {
            &&& r is Ok
            &&& post.map == pre.map
            &&& post.starting_position == pre.starting_position
            &&& spawns_added(pre.spawn_list@, post.spawn_list@, &pre.map, pre.starting_position, &table)
        },
        MetaMapBuilder::CaveDecorator => {
            &&& r is Ok
            &&& post.spawn_list == pre.spawn_list
            &&& post.starting_position == pre.starting_position
            &&& forall|i: int| 0 <= i < pre.map.tiles@.len() ==> decorated(&pre.map, i, pre.map.tiles@[i], #[trigger] post.map.tiles@[i])
                && same_footing(pre.map.tiles@[i], post.map.tiles@[i])
        },
        MetaMapBuilder::PrefabSectional(_) => {
            &&& r is Ok
            &&& post.starting_position == pre.starting_position
            &&& exists|sec: PrefabSection|
                sec.wf() && forall|x: int, y: int|
                    #![trigger post.map.at(x, y)]
                    pre.map.in_bounds(x, y) ==> post.map.at(x, y) == stamped(&pre.map, &sec, sec.template@, x, y)
        },
        MetaMapBuilder::RoomDrawer => {
            &&& r is Ok
            &&& post.spawn_list == pre.spawn_list
            &&& post.starting_position == pre.starting_position
            &&& post.rooms == pre.rooms
            &&& pre.rooms is None ==> post.map == pre.map
            &&& pre.rooms matches Some(rs) ==> forall|x: int, y: int|
                #![trigger post.map.at(x, y)]
                pre.map.in_bounds(x, y) ==> post.map.at(x, y) == (if exists|k: int| 0 <= k < rs@.len() && in_room(#[trigger] rs@[k], x, y) {
                    TileType::Floor
                } else {
                    pre.map.at(x, y)
                })
        },
        MetaMapBuilder::BspCorridors => {
            &&& r is Ok
            &&& post.spawn_list == pre.spawn_list
            &&& post.starting_position == pre.starting_position
            &&& post.rooms == pre.rooms
            &&& pre.rooms is None ==> post.map == pre.map && post.corridors == pre.corridors
            &&& pre.rooms matches Some(rs) ==> post.corridors matches Some(cs) && cs@.len() == (if rs@.len() == 0 { 0 } else { rs@.len() - 1 })
        },
        MetaMapBuilder::RoomBasedStartingPosition => {
            &&& r is Ok
            &&& post.map == pre.map
            &&& post.spawn_list == pre.spawn_list
            &&& post.rooms == pre.rooms
            &&& (pre.rooms is None || pre.rooms->Some_0@.len() == 0) ==> post.starting_position == pre.starting_position
            &&& (pre.rooms is Some && pre.rooms->Some_0@.len() > 0) ==> post.starting_position == Some(
                Point { x: ((pre.rooms->Some_0@[0].x1 + pre.rooms->Some_0@[0].x2) / 2) as i32, y: ((pre.rooms->Some_0@[0].y1 + pre.rooms->Some_0@[0].y2) / 2) as i32 },
            )
        },
        MetaMapBuilder::DoorPlacement => {
            &&& r is Ok
            &&& post.map == pre.map
            &&& post.starting_position == pre.starting_position
            &&& post.spawn_list@.len() >= pre.spawn_list@.len()
            &&& forall|k: int| 0 <= k < pre.spawn_list@.len() ==> post.spawn_list@[k] == pre.spawn_list@[k]
            &&& forall|k: int|
                pre.spawn_list@.len() <= k < post.spawn_list@.len() ==> door_fits(
                    &pre.map,
                    (#[trigger] post.spawn_list@[k]).0 as int % pre.map.width as int,
                    post.spawn_list@[k].0 as int / pre.map.width as int,
                )
            &&& post.spawn_list@.len() == pre.spawn_list@.len() + door_indices(&pre.map, pre.map.tiles@.len() as int).len()
            &&& forall|j: int|
                0 <= j < door_indices(&pre.map, pre.map.tiles@.len() as int).len() ==> post.spawn_list@[pre.spawn_list@.len() + j].0
                    == #[trigger] door_indices(&pre.map, pre.map.tiles@.len() as int)[j]
        },
        MetaMapBuilder::RoomCornerRounder => {
            &&& r is Ok
            &&& post.spawn_list == pre.spawn_list
            &&& post.starting_position == pre.starting_position
            &&& pre.rooms is None ==> post.map == pre.map
            &&& pre.rooms matches Some(rs) ==> post.map.tiles@ == round_rooms(pre.map.tiles@, pre.map.width as int, rs@, rs@.len() as int)
        },
        MetaMapBuilder::RoomSorterCentral => {
            &&& r is Ok
            &&& post.map == pre.map
            &&& post.spawn_list == pre.spawn_list
            &&& post.starting_position == pre.starting_position
            &&& pre.rooms is None ==> post.rooms is None
            &&& pre.rooms matches Some(rs) ==> post.rooms matches Some(out) && out@.to_multiset() == rs@.to_multiset()
                && sorted_by_centre(out@, pre.map.width as int, pre.map.height as int)
        },
        MetaMapBuilder::WaveformCollapse => {
            &&& post.spawn_list == pre.spawn_list
            &&& r is Err ==> r == Err::<(), BuildError>(BuildError::WaveformContradiction) && post.map == pre.map
            &&& r is Ok && pre.map.width >= CHUNK && pre.map.height >= CHUNK ==> exists|pats: Seq<Vec<TileType>>, g: Seq<usize>|
                #[trigger] made_of_chunks(&post.map, pats, g)
            &&& (pre.map.width < CHUNK || pre.map.height < CHUNK) ==> r is Ok && post.map == pre.map
        },
    }
}

/// The two contexts differ at most in their history.
pub open spec fn same_but_history(a: BuilderMap, b: BuilderMap) -> bool {
    &&& a.map == b.map
    &&& a.spawn_list == b.spawn_list
    &&& a.starting_position == b.starting_position
    &&& a.rooms == b.rooms
    &&& a.corridors == b.corridors
    &&& a.width == b.width
    &&& a.height == b.height
    &&& a.record_history == b.record_history
}

/// A run of the chain from the context `pre` to `post` with result `r`:
/// `states[0]` is what the initial stage made; each later state is what the
/// next meta stage, in order, made of the one before, each stage having run
/// once. On success every meta stage ran and `post` is the last state; on
/// failure the stage after the last state returned the error, leaving
/// `post`, and no later stage ran.
pub open spec fn chain_run(
    starter: InitialMapBuilder,
    stages: Seq<MetaMapBuilder>,
    table: SpawnTable,
    pre: BuilderMap,
    states: Seq<BuilderMap>,
    post: BuilderMap,
    r: Result<(), BuildError>,
) -> bool {
    &&& 1 <= states.len() <= stages.len() + 1
    &&& initial_spec(starter, pre, states[0])
    &&& forall|j: int| 0 <= j < states.len() - 1 ==> #[trigger] meta_spec(stages[j], table, states[j], states[j + 1], Ok(()))
    &&& r is Ok ==> states.len() == stages.len() + 1 && post == states.last()
    &&& r is Err ==> states.len() <= stages.len() && meta_spec(stages[states.len() - 1], table, states.last(), post, r)
}

proof fn lemma_initial_spec_history(starter: InitialMapBuilder, pre: BuilderMap, mid: BuilderMap, post: BuilderMap)
    requires
        initial_spec(starter, pre, mid),
        same_but_history(mid, post),
    ensures
        initial_spec(starter, pre, post),
{
}

proof fn lemma_meta_spec_history(stage: MetaMapBuilder, table: SpawnTable, pre: BuilderMap, mid: BuilderMap, post: BuilderMap)
    requires
        meta_spec(stage, table, pre, mid, Ok(())),
        same_but_history(mid, post),
    ensures
        meta_spec(stage, table, pre, post, Ok(())),
{
    assert(mid.map == post.map);
}

/// One initial stage followed by meta stages, run in order on a shared
/// build context.
pub struct BuilderChain {
    pub starter: Option<InitialMapBuilder>,
    pub builders: Vec<MetaMapBuilder>,
    pub build_data: BuilderMap,
    pub spawn_table: SpawnTable,
}

impl BuilderChain {
    pub open spec fn wf(&self) -> bool {
        self.build_data.wf() && self.spawn_table.wf()
    }

    /// A chain with no stages over a map of walls.
    pub fn new(new_depth: i32, width: i32, height: i32, name: String) -> (r: BuilderChain)
        requires
            dims_ok(width as int, height as int),
        ensures
            r.wf(),
            r.starter is None,
            r.builders@.len() == 0,
            r.build_data.map.depth == new_depth,
            r.build_data.map.width == width,
            r.build_data.map.height == height,
            r.build_data.map.name@ == name@,
            forall|i: int| 0 <= i < r.build_data.map.tiles@.len() ==> r.build_data.map.tiles@[i] == TileType::Wall,
            r.build_data.spawn_list@.len() == 0,
            r.build_data.starting_position is None,
            r.build_data.rooms is None,
            r.build_data.corridors is None,
            r.build_data.history@.len() == 0,
            !r.build_data.record_history,
            r.spawn_table.entries@.len() == 0,
    {
        BuilderChain {
            starter: None,
            builders: Vec::new(),
            build_data: BuilderMap {
                spawn_list: Vec::new(),
                map: TileMap::new(new_depth, width, height, name),
                starting_position: None,
                rooms: None,
                corridors: None,
                history: Vec::new(),
                width,
                height,
                record_history: false,
            },
            spawn_table: SpawnTable::new(),
        }
    }

    /// Installs the initial stage; a chain has exactly one.
    pub fn start_with(&mut self, starter: InitialMapBuilder)
        requires
            old(self).starter is None,
        ensures
            final(self).starter == Some(starter),
            final(self).builders == old(self).builders,
            final(self).build_data == old(self).build_data,
            final(self).spawn_table == old(self).spawn_table,
    {
        self.starter = Some(starter);
    }

    /// Appends a meta stage after those already there.
    pub fn with(&mut self, metabuilder: MetaMapBuilder)
        ensures
            final(self).builders@ == old(self).builders@.push(metabuilder),
            final(self).starter == old(self).starter,
            final(self).build_data == old(self).build_data,
            final(self).spawn_table == old(self).spawn_table,
    {
        self.builders.push(metabuilder);
    }

    /// Sets the table that spawning stages draw entity tags from.
    pub fn set_spawn_table(&mut self, table: SpawnTable)
        requires
            table.wf(),
        ensures
            final(self).spawn_table == table,
            final(self).starter == old(self).starter,
            final(self).builders == old(self).builders,
            final(self).build_data == old(self).build_data,
    {
        self.spawn_table = table;
    }

    /// Runs the initial stage, then each meta stage in order. Stops at the
    /// first stage that cannot do its work and reports why. The outer ring
    /// of the finished map is wall whatever happened.
    pub fn build_map(&mut self, rng: &mut RandomNumberGenerator) -> (r: Result<(), BuildError>)
        requires
            old(self).wf(),
            old(self).starter is Some,
        ensures
            final(self).wf(),
            final(self).build_data.map.closed(),
            final(self).build_data.map.width == old(self).build_data.map.width,
            final(self).build_data.map.height == old(self).build_data.map.height,
            final(self).build_data.map.depth == old(self).build_data.map.depth,
            final(self).starter == old(self).starter,
            final(self).builders == old(self).builders,
            final(self).spawn_table == old(self).spawn_table,
            exists|states: Seq<BuilderMap>|
                #[trigger] chain_run(
                    old(self).starter->Some_0,
                    old(self).builders@,
                    old(self).spawn_table,
                    old(self).build_data,
                    states,
                    final(self).build_data,
                    r,
                ),
    {
        match self.starter {
            Some(st) => run_initial(&mut self.build_data, rng, st),
            None => {},
        }
        self.build_data.take_snapshot();
        let ghost mut states: Seq<BuilderMap> = seq![self.build_data];
        proof {
            lemma_initial_spec_history(old(self).starter->Some_0, old(self).build_data, states[0], self.build_data);
        }
        let mut k: usize = 0;
        while k < self.builders.len()
            invariant
                self.wf(),
                self.build_data.map.closed(),
                self.build_data.map.width == old(self).build_data.map.width,
                self.build_data.map.height == old(self).build_data.map.height,
                self.build_data.map.depth == old(self).build_data.map.depth,
                self.starter == old(self).starter,
                self.builders == old(self).builders,
                self.spawn_table == old(self).spawn_table,
                k <= self.builders@.len(),
                states.len() == k + 1,
                states.last() == self.build_data,
                initial_spec(old(self).starter->Some_0, old(self).build_data, states[0]),
                forall|j: int| 0 <= j < states.len() - 1 ==> #[trigger] meta_spec(self.builders@[j], self.spawn_table, states[j], states[j + 1], Ok(())),
            decreases self.builders.len() - k,
        {
            let stage = self.builders[k];
            let ghost before = self.build_data;
            let step = run_meta(&mut self.build_data, rng, &self.spawn_table, stage);
            if step.is_err() {
                proof {
                    assert(chain_run(old(self).starter->Some_0, self.builders@, self.spawn_table, old(self).build_data, states, self.build_data, step));
                }
                return step;
            }
            let ghost mid = self.build_data;
            self.build_data.take_snapshot();
            proof {
                lemma_meta_spec_history(stage, self.spawn_table, before, mid, self.build_data);
                let s2 = states.push(self.build_data);
                assert forall|j: int| 0 <= j < s2.len() - 1 implies #[trigger] meta_spec(self.builders@[j], self.spawn_table, s2[j], s2[j + 1], Ok(())) by {
                    if j < states.len() - 1 {
                        assert(s2[j] == states[j] && s2[j + 1] == states[j + 1]);
                    }
                }
                states = s2;
            }
            k += 1;
        }
        proof {
            assert(chain_run(old(self).starter->Some_0, self.builders@, self.spawn_table, old(self).build_data, states, self.build_data, Ok(())));
        }
        Ok(())
    }
}

/// Runs the initial stage `starter` on the build context.
pub fn run_initial(data: &mut BuilderMap, rng: &mut RandomNumberGenerator, starter: InitialMapBuilder)
    requires
        old(data).wf(),
    ensures
        initial_spec(starter, *old(data), *final(data)),
{
    match starter {
        InitialMapBuilder::CellularAutomata => build_cellular(data, rng),
        InitialMapBuilder::DrunkardsWalk(settings) => build_drunkard(data, rng, settings),
        InitialMapBuilder::DlaCentralAttractor => build_dla(data, rng),
        InitialMapBuilder::VoronoiCells => build_voronoi(data, rng),
        InitialMapBuilder::Maze => {
            data.map.close_boundary();
            build_maze(data, rng);
        },
        InitialMapBuilder::BspDungeon => {
            data.map.close_boundary();
            bsp_dungeon(data, rng);
        },
    }
}

/// Runs one meta stage on the build context.
pub fn run_meta(data: &mut BuilderMap, rng: &mut RandomNumberGenerator, table: &SpawnTable, stage: MetaMapBuilder) -> (r: Result<(), BuildError>)
    requires
        old(data).wf(),
        old(data).map.closed(),
        table.wf(),
    ensures
        meta_spec(stage, *table, *old(data), *final(data), r),
{
    match stage {
        MetaMapBuilder::AreaStartingPosition(x, y) => area_starting_position(data, x, y),
        MetaMapBuilder::AreaEndingPosition(x, y) => area_ending_position(data, x, y),
        MetaMapBuilder::CullUnreachable => cull_unreachable(data),
        MetaMapBuilder::DistantExit => distant_exit(data),
        MetaMapBuilder::VoronoiSpawning => {
            voronoi_spawning(data, rng, table);
            Ok(())
        },
        MetaMapBuilder::CaveDecorator => {
            cave_decorator(data, rng);
            Ok(())
        },
        MetaMapBuilder::RoomDrawer => {
            if data.rooms.is_some() {
                room_drawer(data);
            }
            Ok(())
        },
        MetaMapBuilder::BspCorridors => {
            if data.rooms.is_some() {
                bsp_corridors(data, rng);
            }
            Ok(())
        },
        MetaMapBuilder::RoomBasedStartingPosition => {
            if data.rooms.is_some() {
                room_based_starting_position(data);
            }
            Ok(())
        },
        MetaMapBuilder::RoomSorterCentral => {
            sort_rooms_central(data);
            Ok(())
        },
        MetaMapBuilder::CorridorSpawner => {
            corridor_spawner(data, rng, table);
            Ok(())
        },
        MetaMapBuilder::WaveformCollapse => waveform_collapse(data, rng),
        MetaMapBuilder::DoorPlacement => {
            door_placement(data);
            Ok(())
        },
        MetaMapBuilder::RoomCornerRounder => {
            room_corner_rounding(data);
            Ok(())
        },
        MetaMapBuilder::PrefabSectional(kind) => {
            let sec = section(kind);
            apply_sectional(data, &sec);
            Ok(())
        },
    }
}

} // verus!
