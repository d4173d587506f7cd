//! Simulation core of a turn-based tactics game played on a hexagonal grid:
//! an entity/component store, hex geometry, and the rules that select,
//! move and fight units and pass the turn.

pub mod c;
pub mod e;
pub mod i18n;
pub mod s;

pub use e::entity::World;
pub use e::factory::HexMapFactory;
pub use i18n::Locale;
