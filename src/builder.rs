use vstd::prelude::*;
use crate::fov::Point;
use crate::map::TileMap;
use crate::rect::Rect;

verus! {

/// Everything a generation run works on: the map in progress and what the
/// stages have decided so far.
pub struct BuilderMap {
    pub spawn_list: Vec<(usize, String)>,
    pub map: TileMap,
    pub starting_position: Option<Point>,
    pub rooms: Option<Vec<Rect>>,
    pub corridors: Option<Vec<Vec<usize>>>,
    pub history: Vec<TileMap>,
    pub width: i32,
    pub height: i32,
    pub record_history: bool,
}

/// Why a run of the chain could not finish.
#[derive(PartialEq, Eq, Structural, Copy, Clone, Debug)]
pub enum BuildError {
    /// A stage needed a walkable tile and the map has none.
    NoWalkableTile,
    /// A stage needed the starting position before any stage set it.
    NoStartingPosition,
    /// No walkable tile other than the start is reachable from the start.
    NoReachableExit,
    /// Waveform collapse met a contradiction on every attempt.
    WaveformContradiction,
}

impl BuilderMap {
    pub open spec fn wf(&self) -> bool {
        &&& self.map.wf()
        &&& self.width == self.map.width
        &&& self.height == self.map.height
        &&& (self.starting_position matches Some(p) ==> self.map.in_bounds(p.x as int, p.y as int))
        &&& (self.rooms matches Some(rs) ==> crate::bsp::rooms_ok(rs@, self.map.width as int, self.map.height as int))
        &&& forall|k: int|
            0 <= k < self.spawn_list@.len() ==> (#[trigger] self.spawn_list@[k]).0
                < self.map.tiles@.len()
    }

    /// When history is recorded, appends a copy of the map with every tile
    /// revealed; otherwise leaves the history alone.
    pub fn take_snapshot(&mut self)
        ensures
            final(self).map == old(self).map,
            final(self).rooms == old(self).rooms,
            final(self).corridors == old(self).corridors,
            final(self).spawn_list == old(self).spawn_list,
            final(self).starting_position == old(self).starting_position,
            final(self).width == old(self).width,
            final(self).height == old(self).height,
            final(self).record_history == old(self).record_history,
            !old(self).record_history ==> final(self).history == old(self).history,
            old(self).record_history ==> {
                let h = final(self).history@;
                let snap = h.last();
                &&& h.len() == old(self).history@.len() + 1
                &&& h.drop_last() == old(self).history@
                &&& snap.tiles@ == old(self).map.tiles@
                &&& snap.width == old(self).map.width
                &&& snap.height == old(self).map.height
                &&& snap.depth == old(self).map.depth
                &&& snap.visible_tiles@ == old(self).map.visible_tiles@
                &&& snap.revealed_tiles@.len() == old(self).map.revealed_tiles@.len()
                &&& forall|i: int| 0 <= i < snap.revealed_tiles@.len() ==> snap.revealed_tiles@[i]
            },
    {
        if self.record_history {
            let n = self.map.revealed_tiles.len();
            let snapshot = TileMap {
                tiles: copy_vec(&self.map.tiles),
                width: self.map.width,
                height: self.map.height,
                depth: self.map.depth,
                name: self.map.name.clone(),
                revealed_tiles: vec![true; n],
                visible_tiles: copy_vec(&self.map.visible_tiles),
            };
            let ghost h0 = self.history@;
            self.history.push(snapshot);
            proof {
                assert(self.history@.drop_last() =~= h0);
            }
        }
    }
}

/// A copy of `v`, element by element.
pub fn copy_vec<T: Copy>(v: &Vec<T>) -> (r: Vec<T>)
    ensures
        r@ == v@,
{
    let mut r: Vec<T> = Vec::new();
    let mut i: usize = 0;
    while i < v.len()
        invariant
            i <= v@.len(),
            r@ == v@.subrange(0, i as int),
        decreases v.len() - i,
    {
        r.push(v[i]);
        proof {
            assert(v@.subrange(0, i as int + 1) =~= v@.subrange(0, i as int).push(v@[i as int]));
        }
        i += 1;
    }
    proof {
        assert(v@.subrange(0, i as int) =~= v@);
    }
    r
}

} // verus!
