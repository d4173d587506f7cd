//! Components: the data attached to entities.

pub mod game;
pub mod hex;

pub use self::game::{
    GameState, Hovering, InAttackRange, InMovementRange, MapSettings, Selected, Team,
};
pub use self::hex::{
    HexCoord, HexEntityMap, HexSet, Position, Terrain, TerrainType, UnitStats, UnitState, UnitType,
};
pub use crate::e::entity::ComponentVec;
