//! The table of each kind of component.

use vstd::prelude::*;
use crate::c::game::{
    GameState, Hovering, InAttackRange, InMovementRange, MapSettings, Selected, Team,
};
use crate::c::hex::{HexEntityMap, Position, Terrain, UnitStats, UnitState};
use crate::e::entity::{Column, Component, Store, World};

verus! {

impl Component for Selected {
    open spec fn column(s: Store) -> Column<Self> {
        s.selected
    }

    open spec fn with_column(s: Store, c: Column<Self>) -> Store {
        Store { selected: c, ..s }
    }

    proof fn column_laws(s: Store, c: Column<Self>, d: Column<Self>) {
    }

    fn table(w: &World) -> (t: &Option<Vec<Option<Self>>>) {
        &w.selected
    }

    fn table_mut(w: &mut World) -> (t: &mut Option<Vec<Option<Self>>>) {
        &mut w.selected
    }
}

impl Component for Hovering {
    open spec fn column(s: Store) -> Column<Self> {
        s.hovering
    }

    open spec fn with_column(s: Store, c: Column<Self>) -> Store {
        Store { hovering: c, ..s }
    }

    proof fn column_laws(s: Store, c: Column<Self>, d: Column<Self>) {
    }

    fn table(w: &World) -> (t: &Option<Vec<Option<Self>>>) {
        &w.hovering
    }

    fn table_mut(w: &mut World) -> (t: &mut Option<Vec<Option<Self>>>) {
        &mut w.hovering
    }
}

impl Component for InMovementRange {
    open spec fn column(s: Store) -> Column<Self> {
        s.in_movement_range
    }

    open spec fn with_column(s: Store, c: Column<Self>) -> Store {
        Store { in_movement_range: c, ..s }
    }

    proof fn column_laws(s: Store, c: Column<Self>, d: Column<Self>) {
    }

    fn table(w: &World) -> (t: &Option<Vec<Option<Self>>>) {
        &w.in_movement_range
    }

    fn table_mut(w: &mut World) -> (t: &mut Option<Vec<Option<Self>>>) {
        &mut w.in_movement_range
    }
}

impl Component for InAttackRange {
    open spec fn column(s: Store) -> Column<Self> {
        s.in_attack_range
    }

    open spec fn with_column(s: Store, c: Column<Self>) -> Store {
        Store { in_attack_range: c, ..s }
    }

    proof fn column_laws(s: Store, c: Column<Self>, d: Column<Self>) {
    }

    fn table(w: &World) -> (t: &Option<Vec<Option<Self>>>) {
        &w.in_attack_range
    }

    fn table_mut(w: &mut World) -> (t: &mut Option<Vec<Option<Self>>>) {
        &mut w.in_attack_range
    }
}

impl Component for Team {
    open spec fn column(s: Store) -> Column<Self> {
        s.team
    }

    open spec fn with_column(s: Store, c: Column<Self>) -> Store {
        Store { team: c, ..s }
    }

    proof fn column_laws(s: Store, c: Column<Self>, d: Column<Self>) {
    }

    fn table(w: &World) -> (t: &Option<Vec<Option<Self>>>) {
        &w.team
    }

    fn table_mut(w: &mut World) -> (t: &mut Option<Vec<Option<Self>>>) {
        &mut w.team
    }
}

impl Component for GameState {
    open spec fn column(s: Store) -> Column<Self> {
        s.game_state
    }

    open spec fn with_column(s: Store, c: Column<Self>) -> Store {
        Store { game_state: c, ..s }
    }

    proof fn column_laws(s: Store, c: Column<Self>, d: Column<Self>) {
    }

    fn table(w: &World) -> (t: &Option<Vec<Option<Self>>>) {
        &w.game_state
    }

    fn table_mut(w: &mut World) -> (t: &mut Option<Vec<Option<Self>>>) {
        &mut w.game_state
    }
}

impl Component for MapSettings {
    open spec fn column(s: Store) -> Column<Self> {
        s.map_settings
    }

    open spec fn with_column(s: Store, c: Column<Self>) -> Store {
        Store { map_settings: c, ..s }
    }

    proof fn column_laws(s: Store, c: Column<Self>, d: Column<Self>) {
    }

    fn table(w: &World) -> (t: &Option<Vec<Option<Self>>>) {
        &w.map_settings
    }

    fn table_mut(w: &mut World) -> (t: &mut Option<Vec<Option<Self>>>) {
        &mut w.map_settings
    }
}

impl Component for Position {
    open spec fn column(s: Store) -> Column<Self> {
        s.position
    }

    open spec fn with_column(s: Store, c: Column<Self>) -> Store {
        Store { position: c, ..s }
    }

    proof fn column_laws(s: Store, c: Column<Self>, d: Column<Self>) {
    }

    fn table(w: &World) -> (t: &Option<Vec<Option<Self>>>) {
        &w.position
    }

    fn table_mut(w: &mut World) -> (t: &mut Option<Vec<Option<Self>>>) {
        &mut w.position
    }
}

impl Component for Terrain {
    open spec fn column(s: Store) -> Column<Self> {
        s.terrain
    }

    open spec fn with_column(s: Store, c: Column<Self>) -> Store {
        Store { terrain: c, ..s }
    }

    proof fn column_laws(s: Store, c: Column<Self>, d: Column<Self>) {
    }

    fn table(w: &World) -> (t: &Option<Vec<Option<Self>>>) {
        &w.terrain
    }

    fn table_mut(w: &mut World) -> (t: &mut Option<Vec<Option<Self>>>) {
        &mut w.terrain
    }
}

impl Component for UnitStats {
    open spec fn column(s: Store) -> Column<Self> {
        s.unit_stats
    }

    open spec fn with_column(s: Store, c: Column<Self>) -> Store {
        Store { unit_stats: c, ..s }
    }

    proof fn column_laws(s: Store, c: Column<Self>, d: Column<Self>) {
    }

    fn table(w: &World) -> (t: &Option<Vec<Option<Self>>>) {
        &w.unit_stats
    }

    fn table_mut(w: &mut World) -> (t: &mut Option<Vec<Option<Self>>>) {
        &mut w.unit_stats
    }
}

impl Component for UnitState {
    open spec fn column(s: Store) -> Column<Self> {
        s.unit_state
    }

    open spec fn with_column(s: Store, c: Column<Self>) -> Store {
        Store { unit_state: c, ..s }
    }

    proof fn column_laws(s: Store, c: Column<Self>, d: Column<Self>) {
    }

    fn table(w: &World) -> (t: &Option<Vec<Option<Self>>>) {
        &w.unit_state
    }

    fn table_mut(w: &mut World) -> (t: &mut Option<Vec<Option<Self>>>) {
        &mut w.unit_state
    }
}

impl Component for HexEntityMap {
    open spec fn column(s: Store) -> Column<Self> {
        s.hex_entity_map
    }

    open spec fn with_column(s: Store, c: Column<Self>) -> Store {
        Store { hex_entity_map: c, ..s }
    }

    proof fn column_laws(s: Store, c: Column<Self>, d: Column<Self>) {
    }

    fn table(w: &World) -> (t: &Option<Vec<Option<Self>>>) {
        &w.hex_entity_map
    }

    fn table_mut(w: &mut World) -> (t: &mut Option<Vec<Option<Self>>>) {
        &mut w.hex_entity_map
    }
}

} // verus!
