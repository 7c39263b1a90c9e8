use vstd::prelude::*;
use vstd::string::StringSliceAdditionalSpecFns;
use crate::builder::BuilderMap;
use crate::map::{TileMap, index_of, lemma_index_in_range, lemma_index_injective};
use crate::tiletype::TileType;

verus! {

#[derive(PartialEq, Eq, Structural, Copy, Clone, Debug)]
pub enum HorizontalPlacement {
    Left,
    Center,
    Right,
}

#[derive(PartialEq, Eq, Structural, Copy, Clone, Debug)]
pub enum VerticalPlacement {
    Top,
    Center,
    Bottom,
}

/// A hand-drawn block of map, row after row with no line breaks, stamped
/// onto part of an existing map.
#[derive(Debug)]
pub struct PrefabSection {
    pub template: Vec<u8>,
    pub width: usize,
    pub height: usize,
    pub placement: (HorizontalPlacement, VerticalPlacement),
}

/// The set pieces this library knows. Templates are read twelve characters
/// to a row.
#[derive(PartialEq, Eq, Structural, Copy, Clone, Debug)]
pub enum PrefabKind {
    /// An orc camp ringed by a moat with two gates, inside a margin of floor.
    OrcCamp,
}

impl PrefabSection {
    pub open spec fn wf(&self) -> bool {
        1 <= self.width <= 1000 && 1 <= self.height <= 1000
    }
}

fn bytes_of(s: &str) -> (r: Vec<u8>)
    ensures
        r@ == s.spec_bytes(),
{
    let b = s.as_bytes();
    let mut r: Vec<u8> = Vec::new();
    let mut i: usize = 0;
    while i < b.len()
        invariant
            i <= b@.len(),
            r@ == b@.subrange(0, i as int),
        decreases b.len() - i,
    {
        r.push(b[i]);
        proof {
            assert(b@.subrange(0, i as int + 1) =~= b@.subrange(0, i as int).push(b@[i as int]));
        }
        i += 1;
    }
    proof {
        assert(b@.subrange(0, i as int) =~= b@);
    }
    r
}

/// The section a prefab kind stands for.
pub fn section(kind: PrefabKind) -> (r: PrefabSection)
    ensures
        r.wf(),
        kind is OrcCamp ==> r.width == 12 && r.height == 12 && r.placement == (HorizontalPlacement::Center, VerticalPlacement::Center),
{
    match kind {
        PrefabKind::OrcCamp => PrefabSection {
            template: bytes_of("             ~~~~o~~~~~  ~#      #~  ~ g      ~  ~    %   ~  ~    #   ~  o   O #  ~  ~ #      ~  ~  g     ~  ~   #    ~  ~~~~o~~~~~             "),
            width: 12,
            height: 12,
            placement: (HorizontalPlacement::Center, VerticalPlacement::Center),
        },
    }
}

/// The tile a template character stands for: ` ` floor (also under
/// `g`, `o`, `O`, `%`, `!`, `^`, which add a spawn), `#` wall, `~` deep
/// water, `>` down stairs. Any other character leaves the map as it is.
pub open spec fn legend_tile(c: u8) -> Option<TileType> {
    if c == 32 || c == 103 || c == 111 || c == 79 || c == 37 || c == 33 || c == 94 {
        Some(TileType::Floor)
    } else if c == 35 {
        Some(TileType::Wall)
    } else if c == 126 {
        Some(TileType::DeepWater)
    } else if c == 62 {
        Some(TileType::DownStairs)
    } else {
        None
    }
}

fn legend(c: u8) -> (r: (Option<TileType>, Option<String>))
    ensures
        r.0 == legend_tile(c),
        r.1 is Some ==> c == 103 || c == 111 || c == 79 || c == 37 || c == 33 || c == 94,
{
    if c == 32 {
        (Some(TileType::Floor), None)
    } else if c == 103 {
        (Some(TileType::Floor), Some("Goblin".to_string()))
    } else if c == 111 {
        (Some(TileType::Floor), Some("Orc".to_string()))
    } else if c == 79 {
        (Some(TileType::Floor), Some("Orc Leader".to_string()))
    } else if c == 37 {
        (Some(TileType::Floor), Some("Rations".to_string()))
    } else if c == 33 {
        (Some(TileType::Floor), Some("Health Potion".to_string()))
    } else if c == 94 {
        (Some(TileType::Floor), Some("Bear Trap".to_string()))
    } else if c == 35 {
        (Some(TileType::Wall), None)
    } else if c == 126 {
        (Some(TileType::DeepWater), None)
    } else if c == 62 {
        (Some(TileType::DownStairs), None)
    } else {
        (None, None)
    }
}

/// Column of the section's left edge on a map `size` wide.
pub open spec fn offset(start: bool, center: bool, size: int, extent: int) -> int {
    if start {
        0
    } else if center {
        size / 2 - extent / 2
    } else {
        (size - 1) - extent
    }
}

/// Where the section is stamped: its top left corner on the map.
pub open spec fn origin(m: &TileMap, s: &PrefabSection) -> (int, int) {
    (
        offset(s.placement.0 is Left, s.placement.0 is Center, m.width as int, s.width as int),
        offset(s.placement.1 is Top, s.placement.1 is Center, m.height as int, s.height as int),
    )
}

/// `(x, y)` lies in the section's box.
pub open spec fn in_section(m: &TileMap, s: &PrefabSection, x: int, y: int) -> bool {
    let (ox, oy) = origin(m, s);
    ox <= x < ox + s.width && oy <= y < oy + s.height
}

/// The tile at `(x, y)` once the section is stamped: cells of the template
/// that fall strictly inside the map and hold a legend character replace
/// the map's tile.
pub open spec fn stamped(m: &TileMap, s: &PrefabSection, bytes: Seq<u8>, x: int, y: int) -> TileType {
    let (ox, oy) = origin(m, s);
    let k = (y - oy) * s.width + (x - ox);
    if in_section(m, s, x, y) && 0 < x < m.width - 1 && 0 < y < m.height - 1 && k < bytes.len()
        && legend_tile(bytes[k]) is Some {
        legend_tile(bytes[k])->Some_0
    } else {
        m.at(x, y)
    }
}

fn offset_of(start: bool, center: bool, size: i32, extent: usize) -> (r: i64)
    requires
        extent <= 1000,
        size >= 1,
    ensures
        r == offset(start, center, size as int, extent as int),
{
    if start {
        0
    } else if center {
        size as i64 / 2 - extent as i64 / 2
    } else {
        (size as i64 - 1) - extent as i64
    }
}

/// Stamps `sec` onto the map. Spawns already inside the section's box are
/// dropped; template characters that call for an entity add one.
pub fn apply_sectional(data: &mut BuilderMap, sec: &PrefabSection)
    requires
        old(data).wf(),
        old(data).map.closed(),
        sec.wf(),
    ensures
        final(data).wf(),
        final(data).map.closed(),
        final(data).map.width == old(data).map.width,
        final(data).map.height == old(data).map.height,
        final(data).map.depth == old(data).map.depth,
        final(data).starting_position == old(data).starting_position,
        final(data).record_history == old(data).record_history,
        forall|x: int, y: int|
            #![trigger final(data).map.at(x, y)]
            old(data).map.in_bounds(x, y) ==> final(data).map.at(x, y) == stamped(
                &old(data).map,
                sec,
                sec.template@,
                x,
                y,
            ),
        forall|k: int|
            0 <= k < final(data).spawn_list@.len() ==> {
                let i = (#[trigger] final(data).spawn_list@[k]).0 as int;
                let w = old(data).map.width as int;
                (old(data).spawn_list@.contains(final(data).spawn_list@[k]) && !in_section(&old(data).map, sec, i % w, i / w))
                    || in_section(&old(data).map, sec, i % w, i / w)
            },
{
    let w = data.map.width;
    let h = data.map.height;
    let wu = w as usize;
    let ghost m0 = data.map;
    let ghost wi = w as int;
    let ox = offset_of(matches!(sec.placement.0, HorizontalPlacement::Left), matches!(sec.placement.0, HorizontalPlacement::Center), w, sec.width);
    let oy = offset_of(matches!(sec.placement.1, VerticalPlacement::Top), matches!(sec.placement.1, VerticalPlacement::Center), h, sec.height);
    let sw = sec.width as i64;
    let sh = sec.height as i64;
    // Keep the spawns outside the box.
    let mut kept: Vec<(usize, String)> = Vec::new();
    let mut k: usize = 0;
    while k < data.spawn_list.len()
        invariant
            data.wf(),
            data.map == m0,
            m0 == old(data).map,
            data.spawn_list == old(data).spawn_list,
            wu == m0.width,
            wi == m0.width,
            ox == origin(&m0, sec).0,
            oy == origin(&m0, sec).1,
            sw == sec.width,
            sh == sec.height,
            sec.wf(),
            forall|j: int|
                0 <= j < kept@.len() ==> {
                    let i = (#[trigger] kept@[j]).0 as int;
                    i < m0.tiles@.len() && old(data).spawn_list@.contains(kept@[j]) && !in_section(&m0, sec, i % wi, i / wi)
                },
        decreases data.spawn_list.len() - k,
    {
        let e = (data.spawn_list[k].0, data.spawn_list[k].1.clone());
        proof {
            assert(e == data.spawn_list@[k as int]);
            assert(old(data).spawn_list@.contains(e));
        }
        let ex = (e.0 % wu) as i64;
        let ey = (e.0 / wu) as i64;
        if ex < ox || ex >= ox + sw || ey < oy || ey >= oy + sh {
            kept.push(e);
        }
        k += 1;
    }
    data.spawn_list = kept;
    let bytes = &sec.template;
    let ghost bs = bytes@;
    let mut ty: i64 = 0;
    while ty < sh
        invariant
            data.wf(),
            data.map.width == m0.width,
            data.map.height == m0.height,
            data.map.depth == m0.depth,
            data.starting_position == old(data).starting_position,
            data.record_history == old(data).record_history,
            m0 == old(data).map,
            wu == m0.width,
            wi == m0.width,
            w == m0.width,
            h == m0.height,
            ox == origin(&m0, sec).0,
            oy == origin(&m0, sec).1,
            sw == sec.width,
            sh == sec.height,
            sec.wf(),
            bs == bytes@,
            bs == sec.template@,
            0 <= ty <= sh,
            forall|j: int|
                0 <= j < data.spawn_list@.len() ==> {
                    let i = (#[trigger] data.spawn_list@[j]).0 as int;
                    (old(data).spawn_list@.contains(data.spawn_list@[j]) && !in_section(&m0, sec, i % wi, i / wi))
                        || in_section(&m0, sec, i % wi, i / wi)
                },
            forall|x: int, y: int|
                #![trigger data.map.at(x, y)]
                m0.in_bounds(x, y) ==> data.map.at(x, y) == (if y - oy < ty {
                    stamped(&m0, sec, bs, x, y)
                } else {
                    m0.at(x, y)
                }),
        decreases sh - ty,
    {
        let mut tx: i64 = 0;
        while tx < sw
            invariant
                data.wf(),
                data.map.width == m0.width,
                data.map.height == m0.height,
                data.map.depth == m0.depth,
                data.starting_position == old(data).starting_position,
                data.record_history == old(data).record_history,
                m0 == old(data).map,
                wu == m0.width,
                wi == m0.width,
                w == m0.width,
                h == m0.height,
                ox == origin(&m0, sec).0,
                oy == origin(&m0, sec).1,
                sw == sec.width,
                sh == sec.height,
                sec.wf(),
                bs == bytes@,
                bs == sec.template@,
                0 <= ty < sh,
                0 <= tx <= sw,
                forall|j: int|
                    0 <= j < data.spawn_list@.len() ==> {
                        let i = (#[trigger] data.spawn_list@[j]).0 as int;
                        (old(data).spawn_list@.contains(data.spawn_list@[j]) && !in_section(&m0, sec, i % wi, i / wi))
                            || in_section(&m0, sec, i % wi, i / wi)
                    },
                forall|x: int, y: int|
                    #![trigger data.map.at(x, y)]
                    m0.in_bounds(x, y) ==> data.map.at(x, y) == (if y - oy < ty || (y - oy == ty && x - ox < tx) {
                        stamped(&m0, sec, bs, x, y)
                    } else {
                        m0.at(x, y)
                    }),
            decreases sw - tx,
        {
            let x = ox + tx;
            let y = oy + ty;
            proof {
                assert(0 <= ty * sw <= 1000000) by (nonlinear_arith)
                    requires 0 <= ty < sh, sh <= 1000, 0 <= sw <= 1000;
            }
            let ci = ty * sw + tx;
            let ghost t0 = data.map;
            if x > 0 && x < w as i64 - 1 && y > 0 && y < h as i64 - 1 && (ci as usize) < bytes.len() {
                let (tile, tag) = legend(bytes[ci as usize]);
                let idx = data.map.xy_idx(x as i32, y as i32);
                match tile {
                    Some(t) => {
                        data.map.tiles.set(idx, t);
                    },
                    None => {},
                }
                match tag {
                    Some(s) => {
                        data.spawn_list.push((idx, s));
                        proof {
                            crate::map::lemma_index_coords(wi, x as int, y as int);
                            assert(in_section(&m0, sec, x as int, y as int));
                        }
                    },
                    None => {},
                }
            }
            proof {
                assert(ci == (y - oy) * sw + (x - ox));
                assert forall|px: int, py: int|
                    #![trigger data.map.at(px, py)]
                    m0.in_bounds(px, py) implies data.map.at(px, py) == (if py - oy < ty || (py - oy == ty && px - ox < tx + 1) {
                        stamped(&m0, sec, bs, px, py)
                    } else {
                        m0.at(px, py)
                    }) by {
                    lemma_index_in_range(wi, m0.height as int, px, py);
                    if px == x && py == y {
                        assert(t0.at(px, py) == m0.at(px, py));
                    } else if x > 0 && x < w - 1 && y > 0 && y < h - 1 {
                        lemma_index_in_range(wi, m0.height as int, x as int, y as int);
                        if index_of(wi, px, py) == index_of(wi, x as int, y as int) {
                            lemma_index_injective(wi, px, py, x as int, y as int);
                        }
                        assert(data.map.at(px, py) == t0.at(px, py));
                    } else {
                        assert(data.map.at(px, py) == t0.at(px, py));
                    }
                }
            }
            tx += 1;
        }
        ty += 1;
    }
    proof {
        assert forall|x: int, y: int|
            #![trigger data.map.at(x, y)]
            data.map.in_bounds(x, y) && data.map.on_edge(x, y) implies data.map.at(x, y) == TileType::Wall by {
            lemma_index_in_range(wi, m0.height as int, x, y);
            assert(m0.at(x, y) == TileType::Wall);
        }
    }
}

} // verus!
