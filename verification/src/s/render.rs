//! What there is to draw: the store as the screen shows it.

use vstd::prelude::*;
use crate::c::game::{GameState, Hovering, InAttackRange, InMovementRange, Selected, Team};
use crate::c::hex::{Terrain, TerrainType, UnitState, UnitStats};
use crate::e::entity::{Entity, Store, World};
use crate::e::factory::HexMapFactory;

verus! {

/// The frame drawn round a tile.
#[derive(Debug, Clone, Copy, PartialEq, Eq, Structural)]
pub enum Highlight {
    /// No frame.
    Plain,
    /// The pointer is over the tile.
    Hovered,
    /// The unit on the tile is selected.
    Selected,
}

/// A unit as it is drawn.
#[derive(Debug, Clone, Copy, PartialEq, Eq, Structural)]
pub struct UnitView {
    pub team_id: u8,
    pub health: i32,
    pub max_health: i32,
    pub movement_left: i32,
    pub has_acted: bool,
}

/// A tile as it is drawn.
#[derive(Debug, Clone, Copy, PartialEq, Eq, Structural)]
pub struct TileView {
    /// The ground, if the tile has one.
    pub terrain: Option<TerrainType>,
    pub in_movement_range: bool,
    pub in_attack_range: bool,
    /// The living unit on the tile.
    pub unit: Option<UnitView>,
    pub highlight: Highlight,
}

/// The game as the status line shows it.
#[derive(Debug, Clone, Copy, PartialEq, Eq, Structural)]
pub struct StatusView {
    pub game_over: bool,
    pub player_won: bool,
    pub current_turn: u8,
    pub selected_entity: Option<Entity>,
}

impl Store {
    /// The unit that is drawn on `entity`: one with stats, state and team
    /// whose health is above zero. A destroyed unit is not drawn.
    pub open spec fn unit_view(self, entity: Entity) -> Option<UnitView> {
        match (
            self.component::<UnitStats>(entity),
            self.component::<UnitState>(entity),
            self.component::<Team>(entity),
        ) {
            (Some(stats), Some(state), Some(team)) => if state.health > 0 {
                Some(
                    UnitView {
                        team_id: team.team_id,
                        health: state.health,
                        max_health: stats.max_health,
                        movement_left: state.movement_left,
                        has_acted: state.has_acted,
                    },
                )
            } else {
                None
            },
            _ => None,
        }
    }

    /// The frame round `entity` while `selected_entity` is recorded as
    /// selected: that of the selection where the tile carries the selection
    /// marker or is the one recorded, else that of the pointer where the
    /// tile carries its marker.
    pub open spec fn highlight(self, entity: Entity, selected_entity: Option<Entity>) -> Highlight {
        if self.component::<Selected>(entity) is Some || selected_entity == Some(entity) {
            Highlight::Selected
        } else if self.component::<Hovering>(entity) is Some {
            Highlight::Hovered
        } else {
            Highlight::Plain
        }
    }

    /// The tile `entity` as it is drawn.
    pub open spec fn tile_view(self, entity: Entity, selected_entity: Option<Entity>) -> TileView {
        TileView {
            terrain: match self.component::<Terrain>(entity) {
                Some(terrain) => Some(terrain.terrain_type),
                None => None,
            },
            in_movement_range: self.component::<InMovementRange>(entity) is Some,
            in_attack_range: self.component::<InAttackRange>(entity) is Some,
            unit: self.unit_view(entity),
            highlight: self.highlight(entity, selected_entity),
        }
    }

    /// The game as the status line shows it; nothing without the game state
    /// or without the map settings.
    pub open spec fn status_view(self) -> Option<StatusView> {
        match (self.the_game_state(), self.map_settings_entity()) {
            (Some(game_state), Some(_)) => Some(
                StatusView {
                    game_over: game_state.game_over,
                    player_won: game_state.player_won,
                    current_turn: game_state.current_turn,
                    selected_entity: game_state.selected_entity,
                },
            ),
            _ => None,
        }
    }
}

/// Says what is to be drawn. Drawing itself is left to the caller.
pub struct RenderSystem;

impl RenderSystem {
    /// The game as the status line shows it; nothing is drawn where this is
    /// `None`.
    pub fn status(world: &World) -> (view: Option<StatusView>)
        requires
            world.wf(),
        ensures
            view == world@.status_view(),
    {
        let game_state_entity = match HexMapFactory::get_game_state_entity(world) {
            Some(entity) => entity,
            None => {
                return None;
            },
        };
        if HexMapFactory::get_map_settings_entity(world).is_none() {
            return None;
        }
        match world.get_component::<GameState>(game_state_entity) {
            Some(game_state) => Some(
                StatusView {
                    game_over: game_state.game_over,
                    player_won: game_state.player_won,
                    current_turn: game_state.current_turn,
                    selected_entity: game_state.selected_entity,
                },
            ),
            None => None,
        }
    }

    /// The tile `entity` as it is drawn while `selected_entity` is recorded
    /// as selected.
    pub fn tile(world: &World, entity: Entity, selected_entity: Option<Entity>) -> (view: TileView)
        requires
            world.wf(),
        ensures
            view == world@.tile_view(entity, selected_entity),
    {
        let terrain = match world.get_component::<Terrain>(entity) {
            Some(terrain) => Some(terrain.terrain_type),
            None => None,
        };
        let hovering = world.get_component::<Hovering>(entity).is_some();
        let selected = world.get_component::<Selected>(entity).is_some();
        let in_movement_range = world.get_component::<InMovementRange>(entity).is_some();
        let in_attack_range = world.get_component::<InAttackRange>(entity).is_some();
        let unit = match (
            world.get_component::<UnitStats>(entity),
            world.get_component::<UnitState>(entity),
            world.get_component::<Team>(entity),
        ) {
            (Some(stats), Some(state), Some(team)) => {
                if state.health > 0 {
                    Some(
                        UnitView {
                            team_id: team.team_id,
                            health: state.health,
                            max_health: stats.max_health,
                            movement_left: state.movement_left,
                            has_acted: state.has_acted,
                        },
                    )
                } else {
                    None
                }
            },
            _ => None,
        };
        let recorded = match selected_entity {
            Some(e) => e == entity,
            None => false,
        };
        let highlight = if selected || recorded {
            Highlight::Selected
        } else if hovering {
            Highlight::Hovered
        } else {
            Highlight::Plain
        };
        TileView { terrain, in_movement_range, in_attack_range, unit, highlight }
    }
}

} // verus!
