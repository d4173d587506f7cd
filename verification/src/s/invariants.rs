//! What holds of the store in every state of a game: the rules keep it.

use vstd::prelude::*;
use vstd::arithmetic::div_mod::lemma_fundamental_div_mod_converse;
use crate::c::game::{
    GameState, Hovering, InAttackRange, InMovementRange, MapSettings, Selected, Team,
};
use crate::c::hex::{HexCoord, HexEntityMap, Position, Terrain, UnitState, UnitStats, UnitType};
use crate::e::entity::{
    lemma_first_holder, lemma_holder_is_live, lemma_holders_after_replace, lemma_store_stays_wf,
    Entity, Store,
};
use crate::e::factory::{cell_of, grid, initial_game_state, is_tiled, seeded};
use crate::s::rules::{
    lemma_deselected_clears, lemma_hovered_frame, lemma_ranged_frame, lemma_selected_is_only,
    lemma_with_selection,
};

verus! {

impl Store {
    /// The selection marker is on the entity that the game state records as
    /// selected, and on no other.
    pub open spec fn selection_consistent(self) -> bool {
        self.the_game_state() is Some ==> forall|e: Entity|
            (#[trigger] self.component::<Selected>(e)) is Some <==> self.the_game_state().unwrap().selected_entity
                == Some(e)
    }

    /// Every entity with a state has stats, and its movement left is
    /// between zero and its movement.
    pub open spec fn units_in_bounds(self) -> bool {
        forall|e: Entity|
            (#[trigger] self.component::<UnitState>(e)) is Some ==> self.component::<UnitStats>(e) is Some
                && 0 <= self.component::<UnitState>(e).unwrap().movement_left
                <= self.component::<UnitStats>(e).unwrap().movement
    }

    /// Every cell of the map has a tile of its own, which has a terrain and
    /// has the cell as its position.
    pub open spec fn board_consistent(self) -> bool {
        forall|c: HexCoord| #[trigger]
            self.hex_map().contains_key(c) ==> self.component::<Position>(self.hex_map()[c]) == Some(
                Position { coord: c },
            ) && self.component::<Terrain>(self.hex_map()[c]) is Some
    }

    /// Every team is the player's or the enemy's, and one of the two is to
    /// move.
    pub open spec fn sides_valid(self) -> bool {
        &&& forall|e: Entity|
            (#[trigger] self.component::<Team>(e)) is Some ==> self.component::<Team>(e).unwrap().team_id
                <= 1
        &&& self.the_game_state() is Some ==> self.the_game_state().unwrap().current_turn <= 1
    }

    /// The tiles, their places and the map settings are those of `other`.
    pub open spec fn same_board(self, other: Store) -> bool {
        &&& self.ids.len() == other.ids.len()
        &&& self.position == other.position
        &&& self.terrain == other.terrain
        &&& self.map_settings == other.map_settings
        &&& self.hex_entity_map == other.hex_entity_map
    }

    /// The teams and the side to move are those of `other`.
    pub open spec fn same_sides(self, other: Store) -> bool {
        &&& self.ids.len() == other.ids.len()
        &&& self.team == other.team
        &&& match (self.the_game_state(), other.the_game_state()) {
            (Some(a), Some(b)) => a.current_turn == b.current_turn,
            (None, None) => true,
            _ => false,
        }
    }

    /// The three tables that make up the units are those of `other`.
    pub open spec fn same_units(self, other: Store) -> bool {
        &&& self.ids.len() == other.ids.len()
        &&& self.unit_stats == other.unit_stats
        &&& self.unit_state == other.unit_state
        &&& self.team == other.team
    }
}

/// On a consistent board no two cells share a tile.
pub proof fn lemma_board_one_to_one(s: Store, a: HexCoord, b: HexCoord)
    requires
        s.board_consistent(),
        s.hex_map().contains_key(a),
        s.hex_map().contains_key(b),
        s.hex_map()[a] == s.hex_map()[b],
    ensures
        a == b,
{
}

/// A board that is consistent in one store is so in every store with the
/// same board.
pub proof fn lemma_same_board(s: Store, other: Store)
    requires
        s.same_board(other),
        other.board_consistent(),
    ensures
        s.board_consistent(),
        s.hex_map() == other.hex_map(),
{
    assert(s.hex_map() == other.hex_map());
    assert forall|c: HexCoord| #[trigger] s.hex_map().contains_key(c) implies s.component::<Position>(
        s.hex_map()[c],
    ) == Some(Position { coord: c }) && s.component::<Terrain>(s.hex_map()[c]) is Some by {
        assert(other.hex_map().contains_key(c));
    }
}

/// Sides that are valid in one store are so in every store with the same
/// sides.
pub proof fn lemma_same_sides(s: Store, other: Store)
    requires
        s.same_sides(other),
        other.sides_valid(),
    ensures
        s.sides_valid(),
{
    assert forall|e: Entity| (#[trigger] s.component::<Team>(e)) is Some implies s.component::<Team>(
        e,
    ).unwrap().team_id <= 1 by {
        assert(other.component::<Team>(e) is Some);
    }
}

/// Units that are within their bounds in one store are so in every store
/// with the same units.
pub proof fn lemma_same_units(s: Store, other: Store)
    requires
        s.same_units(other),
        other.units_in_bounds(),
    ensures
        s.units_in_bounds(),
{
    assert forall|e: Entity| (#[trigger] s.component::<UnitState>(e)) is Some implies s.component::<UnitStats>(
        e,
    ) is Some && 0 <= s.component::<UnitState>(e).unwrap().movement_left <= s.component::<UnitStats>(
        e,
    ).unwrap().movement by {
        assert(other.component::<UnitState>(e) is Some);
    }
}

/// Giving up the selection leaves the store consistent and the units, the
/// board and the sides as they are.
pub proof fn lemma_deselected_keeps(s: Store)
    requires
        s.wf(),
    ensures
        s.deselected().wf(),
        s.deselected().selection_consistent(),
        s.deselected().same_units(s),
        s.deselected().same_board(s),
        s.deselected().same_sides(s),
        s.deselected().the_game_state() is Some <==> s.the_game_state() is Some,
{
    lemma_first_holder::<GameState>(s);
    if s.the_game_state() is Some {
        assert forall|e: Entity|
            (#[trigger] s.deselected().component::<Selected>(e)) is Some
                <==> s.deselected().the_game_state().unwrap().selected_entity == Some(e) by {
            lemma_deselected_clears(s, e);
        }
        lemma_deselected_clears(s, 0);
    }
}

/// Selecting leaves the store consistent and the units, the board and the
/// sides as they are.
pub proof fn lemma_selected_tile_keeps(s: Store, entity: Entity, turn: u8)
    requires
        s.wf(),
        s.selection_consistent(),
    ensures
        s.selected_tile(entity, turn).wf(),
        s.selected_tile(entity, turn).selection_consistent(),
        s.selected_tile(entity, turn).same_units(s),
        s.selected_tile(entity, turn).same_board(s),
        s.selected_tile(entity, turn).same_sides(s),
{
    lemma_first_holder::<GameState>(s);
    if s.eligible(entity, turn) {
        lemma_deselected_keeps(s);
        let s1 = s.deselected();
        let s2 = s1.added(entity, Selected);
        lemma_with_selection(s2, Some(entity));
        let s3 = s2.with_selection(Some(entity));
        lemma_ranged_frame(s3, entity);
        if s.the_game_state() is Some {
            assert forall|e: Entity|
                (#[trigger] s.selected_tile(entity, turn).component::<Selected>(e)) is Some
                    <==> s.selected_tile(entity, turn).the_game_state().unwrap().selected_entity
                    == Some(e) by {
                lemma_selected_is_only(s, entity, turn, e);
            }
        } else {
            assert(s1 == s);
            assert(s2.game_state == s.game_state);
            assert(s3 == s2);
        }
    }
}

/// Paying for a move and copying the unit to its goal changes the three
/// tables of the units and nothing else, and keeps the units within their
/// bounds and the sides valid.
pub proof fn lemma_relocated_keeps(s: Store, from: Entity, to: Entity)
    requires
        s.wf(),
        s.can_move(from, to),
    ensures
        s.relocated(from, to).wf(),
        s.relocated(from, to) == (Store {
            unit_stats: s.relocated(from, to).unit_stats,
            unit_state: s.relocated(from, to).unit_state,
            team: s.relocated(from, to).team,
            ..s
        }),
        s.units_in_bounds() ==> s.relocated(from, to).units_in_bounds(),
        s.sides_valid() ==> s.relocated(from, to).sides_valid(),
{
    lemma_holder_is_live::<UnitState>(s, from);
    lemma_holder_is_live::<InMovementRange>(s, to);
    let there = s.relocated(from, to);
    let state = s.component::<UnitState>(from).unwrap();
    let cost = s.component::<Terrain>(to).unwrap().terrain_type.cost();
    let s1 = s.added(from, UnitState { movement_left: (state.movement_left - cost) as i32, ..state });
    assert(s1.wf());
    assert(s1.free == s.free);
    let s2 = s1.copied::<UnitStats>(from, to);
    assert(s2.wf());
    assert(s2.free == s.free);
    let s3 = s2.copied::<UnitState>(from, to);
    assert(s3.wf());
    assert(s3.free == s.free);
    assert(there == s3.copied::<Team>(from, to));
    assert(there.wf());
    assert(there.game_state == s.game_state);
    assert(there.ids == s.ids);
    if s.units_in_bounds() {
        assert(s.component::<UnitStats>(from) is Some);
        assert forall|e: Entity| (#[trigger] there.component::<UnitState>(e)) is Some implies there.component::<UnitStats>(
            e,
        ) is Some && 0 <= there.component::<UnitState>(e).unwrap().movement_left
            <= there.component::<UnitStats>(e).unwrap().movement by {
            if e != to && e != from {
                assert(there.component::<UnitState>(e) == s.component::<UnitState>(e));
                assert(there.component::<UnitStats>(e) == s.component::<UnitStats>(e));
                assert(s.component::<UnitState>(e) is Some);
            }
        }
    }
    if s.sides_valid() {
        assert(there.the_game_state() == s.the_game_state());
        assert forall|e: Entity| (#[trigger] there.component::<Team>(e)) is Some implies there.component::<Team>(
            e,
        ).unwrap().team_id <= 1 by {
            if e == to {
                if s.component::<Team>(from) is None {
                    assert(s.component::<Team>(to) is Some);
                } else {
                    assert(there.component::<Team>(to) == s.component::<Team>(from));
                }
            } else {
                assert(there.component::<Team>(e) == s.component::<Team>(e));
                assert(s.component::<Team>(e) is Some);
            }
        }
    }
}

/// A move leaves the store consistent, the units within their bounds, the
/// board as it is, and the sides valid.
pub proof fn lemma_moved_keeps(s: Store, from: Entity, to: Entity)
    requires
        s.wf(),
        s.selection_consistent(),
    ensures
        s.moved(from, to).wf(),
        s.moved(from, to).selection_consistent(),
        s.units_in_bounds() ==> s.moved(from, to).units_in_bounds(),
        s.moved(from, to).same_board(s),
        s.sides_valid() ==> s.moved(from, to).sides_valid(),
{
    lemma_first_holder::<GameState>(s);
    if s.can_move(from, to) {
        lemma_relocated_keeps(s, from, to);
        lemma_holder_is_live::<InMovementRange>(s, to);
        let there = s.relocated(from, to);
        assert(there.live(to));
        let spent = match there.component::<UnitState>(to) {
            Some(state) => state.movement_left <= 0,
            None => true,
        };
        if spent {
            lemma_deselected_keeps(there);
            assert(s.moved(from, to) == there.deselected());
            if there.units_in_bounds() {
                lemma_same_units(there.deselected(), there);
            }
            if there.sides_valid() {
                lemma_same_sides(there.deselected(), there);
            }
        } else {
            lemma_with_selection(there, Some(to));
            let s1 = there.with_selection(Some(to));
            lemma_store_stays_wf::<InMovementRange>(s1, 0, InMovementRange);
            let a = s1.without::<InMovementRange>();
            lemma_store_stays_wf::<InAttackRange>(a, 0, InAttackRange);
            let b = a.without::<InAttackRange>();
            lemma_store_stays_wf::<Selected>(b, 0, Selected);
            let s2 = s1.without_markers();
            assert(s2 == b.without::<Selected>());
            assert(s2.wf());
            assert(s2.game_state == s1.game_state);
            assert(s2.free == there.free);
            assert(s2.live(to));
            lemma_store_stays_wf::<Selected>(s2, to, Selected);
            let s3 = s2.added(to, Selected);
            assert(s3.game_state == s1.game_state);
            assert forall|e: Entity| (#[trigger] s3.component::<Selected>(e)) is Some <==> e == to by {
                assert(s2.component::<Selected>(e) is None);
            }
            lemma_ranged_frame(s3, to);
            let s4 = s3.ranged(to);
            assert(s4 == s.moved(from, to));
            assert(s4.game_state == s1.game_state);
            assert(s4.selected == s3.selected);
            assert(s4.ids == there.ids);
            assert(s4.same_units(there));
            if there.units_in_bounds() {
                lemma_same_units(s4, there);
            }
            if s.the_game_state() is Some {
                assert(s4.the_game_state() == s1.the_game_state());
                assert forall|e: Entity|
                    (#[trigger] s4.component::<Selected>(e)) is Some <==> s4.the_game_state().unwrap().selected_entity
                        == Some(e) by {
                    assert(s4.component::<Selected>(e) == s3.component::<Selected>(e));
                }
            } else {
                assert(s4.the_game_state() is None);
            }
            if there.sides_valid() {
                lemma_same_sides(s4, there);
            }
        }
    }
}

/// An attack leaves the store consistent, the units within their bounds,
/// and the board and the sides as they are.
pub proof fn lemma_attacked_keeps(s: Store, attacker: Entity, defender: Entity)
    requires
        s.wf(),
        s.selection_consistent(),
    ensures
        s.attacked(attacker, defender).wf(),
        s.attacked(attacker, defender).selection_consistent(),
        s.units_in_bounds() ==> s.attacked(attacker, defender).units_in_bounds(),
        s.attacked(attacker, defender).same_board(s),
        s.attacked(attacker, defender).same_sides(s),
{
    lemma_first_holder::<GameState>(s);
    if s.can_attack(attacker, defender) {
        let damage = s.damage_between(attacker, defender);
        let hurt = s.wounded(defender, damage);
        let fought = hurt.exhausted(attacker);
        assert(fought.wf());
        assert(fought.game_state == s.game_state);
        if s.units_in_bounds() {
            assert forall|e: Entity| (#[trigger] fought.component::<UnitState>(e)) is Some implies fought.component::<UnitStats>(
                e,
            ) is Some && 0 <= fought.component::<UnitState>(e).unwrap().movement_left
                <= fought.component::<UnitStats>(e).unwrap().movement by {
                assert(s.component::<UnitState>(e) is Some);
            }
        }
        lemma_first_holder::<GameState>(fought);
        let closing = if s.component::<UnitState>(defender) is Some && s.component::<UnitState>(
            defender,
        ).unwrap().health - damage <= 0 && fought.game_over().0 {
            fought.with_outcome(fought.game_over().1)
        } else {
            fought
        };
        if closing != fought {
            let g = fought.game_state_entity().unwrap();
            let game_state = fought.component::<GameState>(g).unwrap();
            lemma_holders_after_replace(
                fought,
                g,
                GameState { game_over: true, player_won: fought.game_over().1, ..game_state },
            );
        }
        assert(closing.wf());
        assert(closing.same_units(fought));
        lemma_deselected_keeps(closing);
    }
}

/// The end of a turn leaves the store consistent, the units within their
/// bounds, the board as it is, and the sides valid.
pub proof fn lemma_turn_ended_keeps(s: Store)
    requires
        s.wf(),
    ensures
        s.turn_ended().wf(),
        s.selection_consistent() ==> s.turn_ended().selection_consistent(),
        s.units_in_bounds() ==> s.turn_ended().units_in_bounds(),
        s.turn_ended().same_board(s),
        s.sides_valid() ==> s.turn_ended().sides_valid(),
{
    lemma_first_holder::<GameState>(s);
    if s.the_game_state() is Some {
        let g = s.game_state_entity().unwrap();
        let game_state = s.component::<GameState>(g).unwrap();
        let next = (1 - game_state.current_turn) as u8;
        let turned = GameState {
            current_turn: next,
            turn_number: (game_state.turn_number + 1) as i32,
            ..game_state
        };
        lemma_holders_after_replace(s, g, turned);
        let s1 = s.with_next_turn();
        assert(s1 == s.added(g, turned));
        let s2 = s1.team_reset(next);
        assert(s2.wf());
        if s.units_in_bounds() {
            assert forall|e: Entity| (#[trigger] s2.component::<UnitState>(e)) is Some implies s2.component::<UnitStats>(
                e,
            ) is Some && 0 <= s2.component::<UnitState>(e).unwrap().movement_left
                <= s2.component::<UnitStats>(e).unwrap().movement by {
                assert(s.component::<UnitState>(e) is Some);
            }
        }
        lemma_deselected_keeps(s2);
        if s.units_in_bounds() {
            lemma_same_units(s2.deselected(), s2);
        }
        if s.sides_valid() {
            assert(s2.the_game_state() == Some(turned));
            assert forall|e: Entity| (#[trigger] s2.component::<Team>(e)) is Some implies s2.component::<Team>(
                e,
            ).unwrap().team_id <= 1 by {
                assert(s.component::<Team>(e) is Some);
            }
            assert(s2.sides_valid());
            lemma_same_sides(s2.deselected(), s2);
        }
    }
}

/// Taking note of the pointer leaves the store consistent and the units,
/// the board and the sides as they are; in a store with both singletons no
/// tile but the one under the pointer carries the pointer's marker
/// afterwards.
pub proof fn lemma_hovered_keeps(s: Store, hover: Option<HexCoord>)
    requires
        s.wf(),
        s.selection_consistent(),
    ensures
        s.hovered(hover).wf(),
        s.hovered(hover).selection_consistent(),
        s.hovered(hover).same_units(s),
        s.hovered(hover).same_board(s),
        s.hovered(hover).same_sides(s),
        s.game_state_entity() is Some && s.map_settings_entity() is Some ==> forall|e: Entity|
            (#[trigger] s.hovered(hover).component::<Hovering>(e)) is Some ==> s.pointed(hover) == Some(e),
{
    lemma_hovered_frame(s, hover);
    lemma_first_holder::<GameState>(s);
    lemma_first_holder::<GameState>(s.hovered(hover));
    let h = s.hovered(hover);
    if s.game_state_entity() is Some {
        let g = s.game_state_entity().unwrap();
        assert(h.selection_of(g) == s.selection_of(g));
        assert forall|e: Entity|
            (#[trigger] h.component::<Selected>(e)) is Some <==> h.the_game_state().unwrap().selected_entity
                == Some(e) by {
            assert(h.component::<Selected>(e) == s.component::<Selected>(e));
        }
        if s.map_settings_entity() is Some {
            let s1 = s.without::<Hovering>();
            assert forall|e: Entity| (#[trigger] s1.component::<Hovering>(e)) is None by {}
            if s.pointed(hover) is Some {
                let entity = s.pointed(hover).unwrap();
                let s2 = s1.added(entity, Hovering);
                assert(h.hovering == s2.hovering);
                assert(h.the_game_state().unwrap().current_turn == s.the_game_state().unwrap().current_turn);
                assert forall|e: Entity| (#[trigger] h.component::<Hovering>(e)) is Some implies e
                    == entity by {
                    assert(s1.component::<Hovering>(e) is None);
                    assert(h.component::<Hovering>(e) == s2.component::<Hovering>(e));
                }
            } else {
                assert(h == s1);
            }
        }
    }
    assert(h.same_sides(s));
}

/// A click leaves the store consistent, the units within their bounds, the
/// board as it is and the sides valid.
pub proof fn lemma_clicked_keeps(s: Store, g: Entity, entity: Entity, turn: u8)
    requires
        s.wf(),
        s.selection_consistent(),
    ensures
        s.clicked(g, entity, turn).wf(),
        s.clicked(g, entity, turn).selection_consistent(),
        s.units_in_bounds() ==> s.clicked(g, entity, turn).units_in_bounds(),
        s.clicked(g, entity, turn).same_board(s),
        s.sides_valid() ==> s.clicked(g, entity, turn).sides_valid(),
{
    let after = s.clicked(g, entity, turn);
    if s.selection_of(g) is Some && s.selection_of(g).unwrap() != entity && s.component::<InMovementRange>(
        entity,
    ) is Some {
        lemma_moved_keeps(s, s.selection_of(g).unwrap(), entity);
    } else if s.selection_of(g) is Some && s.selection_of(g).unwrap() != entity && s.component::<InAttackRange>(
        entity,
    ) is Some {
        lemma_attacked_keeps(s, s.selection_of(g).unwrap(), entity);
        if s.sides_valid() {
            lemma_same_sides(after, s);
        }
    } else if s.selection_of(g) is Some && s.selection_of(g).unwrap() == entity {
        lemma_deselected_keeps(s);
        assert(after == s.deselected());
        if s.units_in_bounds() {
            lemma_same_units(after, s);
        }
        if s.sides_valid() {
            lemma_same_sides(after, s);
        }
    } else {
        lemma_selected_tile_keeps(s, entity, turn);
        assert(after == s.selected_tile(entity, turn));
        if s.units_in_bounds() {
            lemma_same_units(after, s);
        }
        if s.sides_valid() {
            lemma_same_sides(after, s);
        }
    }
}

/// Whatever the input, the store stays well formed and consistent: at most
/// one entity is selected, the one that the game state records; no unit has
/// less than no movement or more than its full movement; the board is as it
/// was, each cell with its own tile; and every team is one of the two sides.
pub proof fn lemma_update_keeps(s: Store, hover: Option<HexCoord>, clicked: bool)
    requires
        s.wf(),
        s.selection_consistent(),
    ensures
        s.updated(hover, clicked).wf(),
        s.updated(hover, clicked).selection_consistent(),
        s.units_in_bounds() ==> s.updated(hover, clicked).units_in_bounds(),
        s.updated(hover, clicked).same_board(s),
        s.board_consistent() ==> s.updated(hover, clicked).board_consistent(),
        s.sides_valid() ==> s.updated(hover, clicked).sides_valid(),
{
    lemma_hovered_keeps(s, hover);
    lemma_first_holder::<GameState>(s);
    let h = s.hovered(hover);
    let after = s.updated(hover, clicked);
    if s.units_in_bounds() {
        lemma_same_units(h, s);
    }
    if s.sides_valid() {
        lemma_same_sides(h, s);
    }
    if s.pointed(hover) is Some && clicked {
        let entity = s.pointed(hover).unwrap();
        let g = s.game_state_entity().unwrap();
        let turn = s.the_game_state().unwrap().current_turn;
        lemma_clicked_keeps(h, g, entity, turn);
        assert(after == h.clicked(g, entity, turn));
    } else {
        assert(after == h);
    }
    assert(after.same_board(s));
    if s.board_consistent() {
        lemma_same_board(after, s);
    }
}

/// A fresh unit is within its bounds, so placing one keeps the units within
/// theirs; it leaves the selection and the board as they are, and the sides
/// valid if the unit is of one of the two.
pub proof fn lemma_with_unit_keeps(s: Store, coord: HexCoord, unit_type: UnitType, team_id: u8)
    requires
        s.wf(),
        s.units_in_bounds(),
    ensures
        s.with_unit(coord, unit_type, team_id).wf(),
        s.with_unit(coord, unit_type, team_id).units_in_bounds(),
        s.selection_consistent() ==> s.with_unit(coord, unit_type, team_id).selection_consistent(),
        s.with_unit(coord, unit_type, team_id).same_board(s),
        s.sides_valid() && team_id <= 1 ==> s.with_unit(coord, unit_type, team_id).sides_valid(),
{
    let t = s.with_unit(coord, unit_type, team_id);
    if s.sides_valid() && team_id <= 1 {
        assert forall|e: Entity| (#[trigger] t.component::<Team>(e)) is Some implies t.component::<Team>(
            e,
        ).unwrap().team_id <= 1 by {
            if s.tile_at(coord) != Some(e) {
                assert(s.component::<Team>(e) is Some);
            }
        }
    }
    assert(t.ids == s.ids);
    assert(t.game_state == s.game_state);
    assert(t.selected == s.selected);
    assert(t.the_game_state() == s.the_game_state());
    assert forall|e: Entity| #[trigger] t.component::<Selected>(e) == s.component::<Selected>(e) by {}
    assert forall|e: Entity| (#[trigger] t.component::<UnitState>(e)) is Some implies t.component::<UnitStats>(
        e,
    ) is Some && 0 <= t.component::<UnitState>(e).unwrap().movement_left <= t.component::<UnitStats>(
        e,
    ).unwrap().movement by {
        if s.tile_at(coord) != Some(e) {
            assert(s.component::<UnitState>(e) is Some);
        }
    }
}

/// A store that holds the singletons and the tiles of a map and nothing
/// else is consistent in every respect: nothing is selected, there are no
/// units, every cell has its own tile, and the player is to move.
pub proof fn lemma_tiled_is_consistent(s: Store, tiles: int, height: int, settings: MapSettings)
    requires
        s.wf(),
        0 <= tiles,
        tiles > 0 ==> 0 < height,
        is_tiled(s, tiles, height, settings),
    ensures
        s.the_game_state() == Some(initial_game_state()),
        s.hex_map() == grid(tiles, height),
        s.selection_consistent(),
        s.units_in_bounds(),
        s.sides_valid(),
        s.board_consistent(),
{
    lemma_first_holder::<GameState>(s);
    lemma_first_holder::<MapSettings>(s);
    assert(s.game_state.unwrap()[0] == Some(initial_game_state()));
    assert(s.component::<GameState>(0) == Some(initial_game_state()));
    assert(s.game_state_entity() == Some(0usize));
    assert(s.map_settings.unwrap()[0] is None);
    assert(s.map_settings.unwrap()[1] == Some(settings));
    assert(s.component::<MapSettings>(0) is None);
    assert(s.component::<MapSettings>(1) == Some(settings));
    assert(s.map_settings_entity() == Some(1usize));
    assert(s.component::<HexEntityMap>(1) == s.hex_entity_map.unwrap()[1]);
    assert(s.hex_map() == grid(tiles, height));
    assert forall|e: Entity| (#[trigger] s.component::<Selected>(e)) is None by {}
    assert forall|e: Entity| (#[trigger] s.component::<UnitState>(e)) is None by {}
    assert forall|e: Entity| (#[trigger] s.component::<Team>(e)) is None by {}
    assert forall|c: HexCoord| #[trigger] s.hex_map().contains_key(c) implies s.component::<Position>(
        s.hex_map()[c],
    ) == Some(Position { coord: c }) && s.component::<Terrain>(s.hex_map()[c]) is Some by {
        let j = c.q * height + c.r;
        assert(0 <= j) by (nonlinear_arith)
            requires
                0 <= c.q,
                0 <= c.r,
                0 < height,
                j == c.q * height + c.r,
        ;
        lemma_fundamental_div_mod_converse(j, height, c.q as int, c.r as int);
        assert(cell_of(j, height) == c);
        let e = (2 + j) as usize;
        assert(s.hex_map()[c] == e);
        assert(s.position.unwrap()[2 + j] == Some(Position { coord: cell_of(j, height) }));
        assert(s.terrain.unwrap()[2 + j] is Some);
    }
}

/// Placing the units of both sides keeps the store consistent, the units
/// within their bounds, the board as it is, and the sides valid.
pub proof fn lemma_seeded_keeps(s: Store, width: int, height: int)
    requires
        s.wf(),
        s.units_in_bounds(),
        s.selection_consistent(),
    ensures
        seeded(s, width, height).wf(),
        seeded(s, width, height).units_in_bounds(),
        seeded(s, width, height).selection_consistent(),
        seeded(s, width, height).same_board(s),
        s.sides_valid() ==> seeded(s, width, height).sides_valid(),
{
    let c1 = HexCoord { q: 1, r: 1 };
    let c2 = HexCoord { q: 2, r: 2 };
    let c3 = HexCoord { q: 3, r: 1 };
    let c4 = HexCoord { q: (width - 2) as i32, r: (height - 2) as i32 };
    let c5 = HexCoord { q: (width - 3) as i32, r: (height - 3) as i32 };
    let c6 = HexCoord { q: (width - 4) as i32, r: (height - 2) as i32 };
    lemma_with_unit_keeps(s, c1, UnitType::Infantry, 0);
    let s1 = s.with_unit(c1, UnitType::Infantry, 0);
    lemma_with_unit_keeps(s1, c2, UnitType::Archer, 0);
    let s2 = s1.with_unit(c2, UnitType::Archer, 0);
    lemma_with_unit_keeps(s2, c3, UnitType::Cavalry, 0);
    let s3 = s2.with_unit(c3, UnitType::Cavalry, 0);
    lemma_with_unit_keeps(s3, c4, UnitType::Infantry, 1);
    let s4 = s3.with_unit(c4, UnitType::Infantry, 1);
    lemma_with_unit_keeps(s4, c5, UnitType::Archer, 1);
    let s5 = s4.with_unit(c5, UnitType::Archer, 1);
    lemma_with_unit_keeps(s5, c6, UnitType::Cavalry, 1);
}

/// Stores with the same units agree on whether the game is over and on who
/// has won it.
pub proof fn lemma_same_units_same_outcome(s: Store, other: Store)
    requires
        s.same_units(other),
    ensures
        s.game_over() == other.game_over(),
        forall|e: Entity| #[trigger] s.alive(e) == other.alive(e),
{
    assert forall|e: Entity| #[trigger] s.alive(e) == other.alive(e) by {}
    if s.player_alive() {
        let e = choose|e: Entity| #[trigger] s.alive(e) && s.component::<Team>(e).unwrap().team_id == 0;
        assert(other.alive(e));
    }
    if other.player_alive() {
        let e = choose|e: Entity| #[trigger] other.alive(e) && other.component::<Team>(e).unwrap().team_id == 0;
        assert(s.alive(e));
    }
    if s.enemy_alive() {
        let e = choose|e: Entity| #[trigger] s.alive(e) && s.component::<Team>(e).unwrap().team_id != 0;
        assert(other.alive(e));
    }
    if other.enemy_alive() {
        let e = choose|e: Entity| #[trigger] other.alive(e) && other.component::<Team>(e).unwrap().team_id != 0;
        assert(s.alive(e));
    }
}

/// Where every team is one of the two sides, the player has a living unit
/// and the enemy has none, the game is over and the player has won it.
pub proof fn lemma_player_wins(s: Store, player: Entity)
    requires
        s.sides_valid(),
        s.alive(player),
        s.component::<Team>(player).unwrap().team_id == 0,
        forall|e: Entity| #[trigger] s.alive(e) ==> s.component::<Team>(e).unwrap().team_id != 1,
    ensures
        s.game_over() == (true, true),
{
    if s.enemy_alive() {
        let e = choose|e: Entity| #[trigger] s.alive(e) && s.component::<Team>(e).unwrap().team_id != 0;
        assert(s.component::<Team>(e) is Some);
    }
}

/// The attack that fells the last living enemy unit ends the game for the
/// player. Where every team is one of the two sides, the attack takes
/// place, its damage is at least the health that the defender, a unit of
/// the enemy, has left, no other unit of the enemy lives, and some unit of
/// the player lives: afterwards the defender has no health left, the game
/// state records that the game is over and that the player has won, as the
/// count of the living units confirms, the attacker has no movement left and
/// has acted, and nothing is selected.
pub proof fn lemma_last_enemy_falls(s: Store, attacker: Entity, defender: Entity, player: Entity)
    requires
        s.wf(),
        s.sides_valid(),
        s.the_game_state() is Some,
        s.can_attack(attacker, defender),
        s.combat_fits(attacker, defender),
        s.component::<Team>(defender) is Some,
        s.component::<Team>(defender).unwrap().team_id == 1,
        s.component::<UnitState>(defender) is Some,
        s.component::<UnitState>(defender).unwrap().health <= s.damage_between(attacker, defender),
        forall|e: Entity| e != defender && #[trigger] s.alive(e) ==> s.component::<Team>(e).unwrap().team_id != 1,
        s.alive(player),
        s.component::<Team>(player).unwrap().team_id == 0,
    ensures
        s.attacked(attacker, defender).wf(),
        s.attacked(attacker, defender).component::<UnitState>(defender) is Some,
        s.attacked(attacker, defender).component::<UnitState>(defender).unwrap().health
            == s.component::<UnitState>(defender).unwrap().health - s.damage_between(attacker, defender),
        s.attacked(attacker, defender).component::<UnitState>(defender).unwrap().health <= 0,
        s.attacked(attacker, defender).the_game_state() == Some(
            GameState {
                game_over: true,
                player_won: true,
                selected_entity: None,
                ..s.the_game_state().unwrap()
            },
        ),
        s.attacked(attacker, defender).game_over() == (true, true),
        s.component::<UnitState>(attacker) is Some ==> s.attacked(attacker, defender).component::<UnitState>(
            attacker,
        ) is Some && s.attacked(attacker, defender).component::<UnitState>(attacker).unwrap().movement_left
            == 0 && s.attacked(attacker, defender).component::<UnitState>(attacker).unwrap().has_acted,
{
    lemma_first_holder::<GameState>(s);
    lemma_holder_is_live::<UnitState>(s, defender);
    lemma_holder_is_live::<UnitStats>(s, attacker);
    let damage = s.damage_between(attacker, defender);
    let hurt = s.wounded(defender, damage);
    assert(hurt.wf());
    assert(hurt.free == s.free);
    let fought = hurt.exhausted(attacker);
    assert(fought.wf());
    assert(fought.ids == s.ids);
    assert(fought.team == s.team);
    assert(fought.game_state == s.game_state);
    assert(fought.component::<UnitState>(defender).unwrap().health == s.component::<UnitState>(
        defender,
    ).unwrap().health - damage);
    assert forall|e: Entity| e != defender && #[trigger] fought.alive(e) implies s.alive(e) by {
        if e == attacker {
            assert(hurt.component::<UnitState>(e) == s.component::<UnitState>(e));
        } else {
            assert(fought.component::<UnitState>(e) == s.component::<UnitState>(e));
        }
    }
    assert(fought.alive(player)) by {
        assert(player != defender);
        assert(hurt.component::<UnitState>(player) == s.component::<UnitState>(player));
    }
    assert(fought.sides_valid()) by {
        assert forall|e: Entity| (#[trigger] fought.component::<Team>(e)) is Some implies fought.component::<Team>(
            e,
        ).unwrap().team_id <= 1 by {
            assert(s.component::<Team>(e) is Some);
        }
        assert(fought.the_game_state() == s.the_game_state());
    }
    assert forall|e: Entity| #[trigger] fought.alive(e) implies fought.component::<Team>(e).unwrap().team_id
        != 1 by {
        if e != defender {
            assert(s.alive(e));
        }
    }
    lemma_player_wins(fought, player);
    let g = fought.game_state_entity().unwrap();
    let game_state = fought.component::<GameState>(g).unwrap();
    lemma_holders_after_replace(fought, g, GameState { game_over: true, player_won: true, ..game_state });
    let closing = fought.with_outcome(true);
    assert(closing.wf());
    assert(closing.same_units(fought));
    assert(closing.the_game_state() == Some(
        GameState { game_over: true, player_won: true, ..game_state },
    ));
    lemma_deselected_keeps(closing);
    lemma_deselected_clears(closing, defender);
    let after = closing.deselected();
    assert(after == s.attacked(attacker, defender));
    assert(after.same_units(fought));
    lemma_same_units_same_outcome(after, fought);
    assert(after.component::<UnitState>(defender) == fought.component::<UnitState>(defender));
    assert(after.component::<UnitState>(attacker) == fought.component::<UnitState>(attacker));
}

} // verus!
