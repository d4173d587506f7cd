//! Systems: the rules of the game, applied to the store, and what the
//! screen shows of it.

pub mod input;
pub mod invariants;
pub mod range;
pub mod render;
pub mod rules;

pub use self::input::InputSystem;
pub use self::render::{Highlight, RenderSystem, StatusView, TileView, UnitView};
