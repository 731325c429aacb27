use vstd::prelude::*;

verus! {

/// The kinds of terrain a level is made of.
#[derive(PartialEq, Eq, Structural, Clone, Copy, Debug)]
pub enum TileType {
    Wall,
    Floor,
    DownStairs,
    UpStairs,
    Road,
    Grass,
    Gravel,
    ShallowWater,
    DeepWater,
    WoodFloor,
    Bridge,
    Stalactite,
    Stalagmite,
}

/// Whether an entity may stand on a tile of this kind.
pub open spec fn walkable(tt: TileType) -> bool {
    match tt {
        TileType::Floor | TileType::DownStairs | TileType::UpStairs | TileType::Grass
        | TileType::Road | TileType::ShallowWater | TileType::WoodFloor | TileType::Bridge
        | TileType::Gravel => true,
        _ => false,
    }
}

/// Whether a tile of this kind blocks sight.
pub open spec fn opaque(tt: TileType) -> bool {
    match tt {
        TileType::Wall | TileType::Stalactite | TileType::Stalagmite => true,
        _ => false,
    }
}

/// Movement-cost multiplier of a tile kind, in tenths (10 is the ordinary cost).
pub open spec fn cost_tenths(tt: TileType) -> int {
    match tt {
        TileType::Road => 8,
        TileType::Grass => 19,
        TileType::ShallowWater => 12,
        _ => 10,
    }
}

pub fn tile_walkable(tt: TileType) -> (r: bool)
    ensures
        r == walkable(tt),
{
    match tt {
        TileType::Floor | TileType::DownStairs | TileType::UpStairs | TileType::Grass
        | TileType::Road | TileType::ShallowWater | TileType::WoodFloor | TileType::Bridge
        | TileType::Gravel => true,
        _ => false,
    }
}

pub fn tile_opaque(tt: TileType) -> (r: bool)
    ensures
        r == opaque(tt),
{
    match tt {
        TileType::Wall | TileType::Stalactite | TileType::Stalagmite => true,
        _ => false,
    }
}

/// Movement-cost multiplier of a tile kind, in tenths: 8 for road, 19 for grass,
/// 12 for shallow water, 10 for everything else.
pub fn tile_cost(tt: TileType) -> (r: u32)
    ensures
        r as int == cost_tenths(tt),
        8 <= r <= 19,
{
    match tt {
        TileType::Road => 8,
        TileType::Grass => 19,
        TileType::ShallowWater => 12,
        _ => 10,
    }
}

} // verus!
