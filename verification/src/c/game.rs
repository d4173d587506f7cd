//! Markers and the components of the two singleton entities.

use vstd::prelude::*;
use crate::e::entity::Entity;

verus! {

/// Marks the tile whose unit is selected.
#[derive(Debug, Clone, Copy)]
pub struct Selected;

/// Marks the tile under the pointer.
#[derive(Debug, Clone, Copy)]
pub struct Hovering;

/// Marks a tile that the selected unit can move to.
#[derive(Debug, Clone, Copy)]
pub struct InMovementRange;

/// Marks a tile whose unit the selected unit can attack.
#[derive(Debug, Clone, Copy)]
pub struct InAttackRange;

/// Side that a unit fights for.
#[derive(Debug, Clone, Copy)]
pub struct Team {
    /// 0 for the player, 1 for the enemy.
    pub team_id: u8,
}

/// State of the game as a whole; one entity carries it.
#[derive(Debug, Clone, Copy)]
pub struct GameState {
    pub selected_entity: Option<Entity>,
    pub hover_entity: Option<Entity>,
    /// Side whose units may act: 0 for the player, 1 for the enemy.
    pub current_turn: u8,
    pub turn_number: i32,
    pub game_over: bool,
    pub player_won: bool,
}

/// Size of the map and its place on the screen; one entity carries it.
/// The three screen measures are kept as the bit patterns of
/// single-precision numbers and are only carried, never computed with.
#[derive(Debug, Clone, Copy)]
pub struct MapSettings {
    pub map_width: i32,
    pub map_height: i32,
    /// Distance from the centre of a cell to a corner, in pixels.
    pub hex_size: u32,
    /// Horizontal pixel position of the cell (0, 0).
    pub origin_x: u32,
    /// Vertical pixel position of the cell (0, 0).
    pub origin_y: u32,
}

} // verus!
