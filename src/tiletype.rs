use vstd::prelude::*;

verus! {

/// The kinds of tile a map is made of.
#[derive(PartialEq, Eq, Structural, Hash, Copy, Clone, Debug)]
pub enum TileType {
    Wall,
    Stalactite,
    Stalagmite,
    Floor,
    DownStairs,
    Road,
    Grass,
    ShallowWater,
    DeepWater,
    WoodFloor,
    Bridge,
    Gravel,
    UpStairs,
}

/// A tile can be walked on unless it is rock or deep water.
pub open spec fn walkable(t: TileType) -> bool {
    !(t is Wall || t is Stalactite || t is Stalagmite || t is DeepWater)
}

/// Rock (walls and cave formations) blocks sight.
pub open spec fn opaque(t: TileType) -> bool {
    t is Wall || t is Stalactite || t is Stalagmite
}

impl TileType {
    pub fn is_walkable(self) -> (r: bool)
        ensures
            r == walkable(self),
    {
        match self {
            TileType::Floor
            | TileType::DownStairs
            | TileType::Road
            | TileType::Grass
            | TileType::ShallowWater
            | TileType::WoodFloor
            | TileType::Bridge
            | TileType::Gravel
            | TileType::UpStairs => true,
            _ => false,
        }
    }

    /// Cost of moving onto the tile, in tenths of a plain step: roads are
    /// quicker, grass and shallow water slower.
    pub fn cost_tenths(self) -> (r: u32)
        ensures
            r == (if self is Road {
                8u32
            } else if self is Grass {
                11u32
            } else if self is ShallowWater {
                12u32
            } else {
                10u32
            }),
    {
        match self {
            TileType::Road => 8,
            TileType::Grass => 11,
            TileType::ShallowWater => 12,
            _ => 10,
        }
    }

    pub fn is_opaque(self) -> (r: bool)
        ensures
            r == opaque(self),
    {
        match self {
            TileType::Wall | TileType::Stalactite | TileType::Stalagmite => true,
            _ => false,
        }
    }
}

} // verus!
