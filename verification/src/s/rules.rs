//! The rules of the game as functions from one state of the store to the
//! next.

use vstd::prelude::*;
use crate::c::game::{GameState, Hovering, InAttackRange, InMovementRange, Selected, Team};
use crate::c::hex::{HexCoord, Position, Terrain, UnitState, UnitStats};
use crate::e::entity::{
    column_at, column_or_empty, lemma_first_holder, lemma_holders_after_replace, Component, Entity, Store,
};
use crate::e::factory::rested;

verus! {

/// Damage of an attack: the attack value less half the defense value, the
/// half rounded down, and at least 1.
pub open spec fn combat_damage(attack: int, defense: int) -> int {
    if attack - defense / 2 > 1 {
        attack - defense / 2
    } else {
        1
    }
}

/// Every attack does damage.
pub proof fn lemma_damage_floor(attack: int, defense: int)
    ensures
        combat_damage(attack, defense) >= 1,
        combat_damage(attack, defense) >= attack - defense / 2,
{
}

impl Store {
    /// The store with the marker `m` on every valid entity of `targets`.
    /// Without such an entity nothing changes: not even the table is made.
    pub open spec fn marked<T: Component>(self, targets: Set<Entity>, m: T) -> Store {
        if exists|e: Entity| self.live(e) && targets.contains(e) {
            T::with_column(
                self,
                Some(
                    Seq::new(
                        self.len(),
                        |i: int|
                            if targets.contains(i as usize) && self.live(i as usize) {
                                Some(m)
                            } else {
                                column_or_empty(T::column(self), self.len())[i]
                            },
                    ),
                ),
            )
        } else {
            self
        }
    }

    /// The store with `selected` recorded in the game state as the
    /// selection.
    pub open spec fn with_selection(self, selected: Option<Entity>) -> Store {
        match self.game_state_entity() {
            Some(g) => match self.component::<GameState>(g) {
                Some(game_state) => self.added(g, GameState { selected_entity: selected, ..game_state }),
                None => self,
            },
            None => self,
        }
    }

    /// The store with the outcome of the game recorded in the game state.
    pub open spec fn with_outcome(self, player_won: bool) -> Store {
        match self.game_state_entity() {
            Some(g) => match self.component::<GameState>(g) {
                Some(game_state) => self.added(
                    g,
                    GameState { game_over: true, player_won, ..game_state },
                ),
                None => self,
            },
            None => self,
        }
    }

    /// The store without range markers and without the selection marker.
    pub open spec fn without_markers(self) -> Store {
        self.without::<InMovementRange>().without::<InAttackRange>().without::<Selected>()
    }

    /// The store after the selection is given up: no entity is selected and
    /// no tile is marked. Unchanged without a game state.
    pub open spec fn deselected(self) -> Store {
        match self.game_state_entity() {
            Some(_) => self.with_selection(None).without_markers(),
            None => self,
        }
    }

    /// The tiles of the cells in `cells`.
    pub open spec fn tiles_of(self, cells: Set<HexCoord>) -> Set<Entity> {
        Set::new(|e: Entity| exists|c: HexCoord| cells.contains(c) && #[trigger] self.tile_at(c) == Some(e))
    }

    /// Both entities have a team, and not the same.
    pub open spec fn hostile(self, a: Entity, b: Entity) -> bool {
        &&& self.component::<Team>(a) is Some
        &&& self.component::<Team>(b) is Some
        &&& self.component::<Team>(a).unwrap().team_id != self.component::<Team>(b).unwrap().team_id
    }

    /// The tiles of the cells in `cells` that carry a unit hostile to
    /// `attacker`.
    pub open spec fn hostile_tiles_of(self, attacker: Entity, cells: Set<HexCoord>) -> Set<Entity> {
        Set::new(|e: Entity| self.tiles_of(cells).contains(e) && self.hostile(attacker, e))
    }

    /// The cells that the unit on `entity` can reach with an attack: those
    /// within its range, or none if it has no stats.
    pub open spec fn attack_cells(self, entity: Entity, at: HexCoord) -> Set<HexCoord> {
        match self.component::<UnitStats>(entity) {
            Some(stats) => self.attack_range(at, stats.range as int),
            None => Set::empty(),
        }
    }

    /// The store with the ranges of the unit on `entity` marked: every tile
    /// that it can move to, and every tile within its attack range that
    /// carries a hostile unit. Unchanged if the entity lacks a position or a
    /// state.
    pub open spec fn ranged(self, entity: Entity) -> Store {
        match (self.component::<Position>(entity), self.component::<UnitState>(entity)) {
            (Some(position), Some(state)) => self.marked(
                self.tiles_of(self.movement_range(position.coord, state.movement_left as int)),
                InMovementRange,
            ).marked(
                self.hostile_tiles_of(entity, self.attack_cells(entity, position.coord)),
                InAttackRange,
            ),
            _ => self,
        }
    }

    /// The unit on `entity` may be selected by the side `turn`: it is of
    /// that side, has movement left and has not acted.
    pub open spec fn eligible(self, entity: Entity, turn: u8) -> bool {
        &&& self.component::<Team>(entity) is Some
        &&& self.component::<Team>(entity).unwrap().team_id == turn
        &&& self.component::<UnitState>(entity) is Some
        &&& self.component::<UnitState>(entity).unwrap().movement_left > 0
        &&& !self.component::<UnitState>(entity).unwrap().has_acted
    }

    /// The store after the side `turn` tries to select `entity`: an
    /// eligible unit becomes the only selected one, and its ranges are
    /// marked; otherwise nothing changes.
    pub open spec fn selected_tile(self, entity: Entity, turn: u8) -> Store {
        if self.eligible(entity, turn) {
            self.deselected().added(entity, Selected).with_selection(Some(entity)).ranged(entity)
        } else {
            self
        }
    }

    /// The store with what entity `from` has of kind `T` copied to `to`.
    pub open spec fn copied<T: Component>(self, from: Entity, to: Entity) -> Store {
        match self.component::<T>(from) {
            Some(v) => self.added(to, v),
            None => self,
        }
    }

    /// The move from `from` to `to` takes place: `to` is marked as in
    /// movement range, both have a position, `to` has a terrain, and the
    /// unit on `from` has the movement points that entering `to` costs.
    pub open spec fn can_move(self, from: Entity, to: Entity) -> bool {
        &&& self.component::<InMovementRange>(to) is Some
        &&& self.component::<Position>(from) is Some
        &&& self.component::<Position>(to) is Some
        &&& self.component::<Terrain>(to) is Some
        &&& self.component::<UnitState>(from) is Some
        &&& self.component::<UnitState>(from).unwrap().movement_left >= self.component::<Terrain>(
            to,
        ).unwrap().terrain_type.cost()
    }

    /// The store after the unit on `from` has paid for entering `to` and its
    /// stats, state and team are copied to `to`. What `from` has stays.
    pub open spec fn relocated(self, from: Entity, to: Entity) -> Store {
        let state = self.component::<UnitState>(from).unwrap();
        let cost = self.component::<Terrain>(to).unwrap().terrain_type.cost();
        self.added(
            from,
            UnitState { movement_left: (state.movement_left - cost) as i32, ..state },
        ).copied::<UnitStats>(from, to).copied::<UnitState>(from, to).copied::<Team>(from, to)
    }

    /// The store after the selected unit on `from` is sent to `to`. A move
    /// that cannot take place changes nothing. After a move that leaves the
    /// unit without movement the selection is given up; after any other the
    /// unit stays selected on `to`, and its ranges are marked anew.
    pub open spec fn moved(self, from: Entity, to: Entity) -> Store {
        if self.can_move(from, to) {
            let there = self.relocated(from, to);
            let spent = match there.component::<UnitState>(to) {
                Some(state) => state.movement_left <= 0,
                None => true,
            };
            if spent {
                there.deselected()
            } else {
                there.with_selection(Some(to)).without_markers().added(to, Selected).ranged(to)
            }
        } else {
            self
        }
    }

    /// The attack of `attacker` on `defender` takes place: `defender` is
    /// marked as in attack range, and both have stats.
    pub open spec fn can_attack(self, attacker: Entity, defender: Entity) -> bool {
        &&& self.component::<InAttackRange>(defender) is Some
        &&& self.component::<UnitStats>(attacker) is Some
        &&& self.component::<UnitStats>(defender) is Some
    }

    /// Damage that `attacker` does to `defender`.
    pub open spec fn damage_between(self, attacker: Entity, defender: Entity) -> int {
        combat_damage(
            self.component::<UnitStats>(attacker).unwrap().attack as int,
            self.component::<UnitStats>(defender).unwrap().defense as int,
        )
    }

    /// The numbers of the attack fit the machine: the damage, and the health
    /// that it leaves.
    pub open spec fn combat_fits(self, attacker: Entity, defender: Entity) -> bool {
        self.can_attack(attacker, defender) ==> {
            &&& self.damage_between(attacker, defender) <= i32::MAX
            &&& self.component::<UnitState>(defender) is Some ==> self.component::<UnitState>(
                defender,
            ).unwrap().health - self.damage_between(attacker, defender) >= i32::MIN
        }
    }

    /// The store with `damage` taken from the health of `defender`.
    pub open spec fn wounded(self, defender: Entity, damage: int) -> Store {
        match self.component::<UnitState>(defender) {
            Some(state) => self.added(
                defender,
                UnitState { health: (state.health - damage) as i32, ..state },
            ),
            None => self,
        }
    }

    /// The store with the turn of the unit on `attacker` ended: no movement
    /// left, and it has acted.
    pub open spec fn exhausted(self, attacker: Entity) -> Store {
        match self.component::<UnitState>(attacker) {
            Some(state) => self.added(
                attacker,
                UnitState { movement_left: 0, has_acted: true, ..state },
            ),
            None => self,
        }
    }

    /// The store after `attacker` attacks `defender`. An attack that cannot
    /// take place changes nothing. Otherwise the defender loses the damage,
    /// the attacker's turn ends, the outcome of the game is recorded if the
    /// defender is destroyed and a side has no living unit left, and the
    /// selection is given up.
    pub open spec fn attacked(self, attacker: Entity, defender: Entity) -> Store {
        if self.can_attack(attacker, defender) {
            let damage = self.damage_between(attacker, defender);
            let destroyed = self.component::<UnitState>(defender) is Some && self.component::<UnitState>(
                defender,
            ).unwrap().health - damage <= 0;
            let fought = self.wounded(defender, damage).exhausted(attacker);
            if destroyed && fought.game_over().0 {
                fought.with_outcome(fought.game_over().1).deselected()
            } else {
                fought.deselected()
            }
        } else {
            self
        }
    }

    /// The turn can pass: the side to move is 0 or 1, and the turn number
    /// can still grow.
    pub open spec fn turn_fits(self) -> bool {
        self.the_game_state() is Some ==> self.the_game_state().unwrap().current_turn <= 1
            && self.the_game_state().unwrap().turn_number < i32::MAX
    }

    /// The store with the turn passed to the other side in the game state.
    pub open spec fn with_next_turn(self) -> Store {
        match self.game_state_entity() {
            Some(g) => match self.component::<GameState>(g) {
                Some(game_state) => self.added(
                    g,
                    GameState {
                        current_turn: (1 - game_state.current_turn) as u8,
                        turn_number: (game_state.turn_number + 1) as i32,
                        ..game_state
                    },
                ),
                None => self,
            },
            None => self,
        }
    }

    /// The store after the turn ends: the other side is to move, the turn
    /// number is one more, the units of the side now to move are rested, and
    /// the selection is given up. Unchanged without a game state.
    pub open spec fn turn_ended(self) -> Store {
        match self.the_game_state() {
            Some(game_state) => self.with_next_turn().team_reset(
                (1 - game_state.current_turn) as u8,
            ).deselected(),
            None => self,
        }
    }

    /// The tile under the pointer, if the store has both singletons and the
    /// pointer is over a cell of the map.
    pub open spec fn pointed(self, hover: Option<HexCoord>) -> Option<Entity> {
        match (self.game_state_entity(), self.map_settings_entity(), hover) {
            (Some(_), Some(_), Some(coord)) => self.without::<Hovering>().tile_at(coord),
            _ => None,
        }
    }

    /// The store with `entity` recorded in the game state carried by `g` as
    /// the tile under the pointer.
    pub open spec fn with_hover(self, g: Entity, entity: Entity) -> Store {
        match self.component::<GameState>(g) {
            Some(game_state) => self.added(g, GameState { hover_entity: Some(entity), ..game_state }),
            None => self,
        }
    }

    /// The store after the pointer is taken note of: the marker of the tile
    /// under the pointer is on that tile and nowhere else, and the game
    /// state records the tile. The selection is as it was. Unchanged without
    /// both singletons.
    pub open spec fn hovered(self, hover: Option<HexCoord>) -> Store {
        match (self.game_state_entity(), self.map_settings_entity()) {
            (Some(g), Some(_)) => match self.pointed(hover) {
                Some(entity) => self.without::<Hovering>().added(entity, Hovering).with_hover(g, entity),
                None => self.without::<Hovering>(),
            },
            _ => self,
        }
    }

    /// What the game state carried by `g` records as selected.
    pub open spec fn selection_of(self, g: Entity) -> Option<Entity> {
        match self.component::<GameState>(g) {
            Some(game_state) => game_state.selected_entity,
            None => None,
        }
    }

    /// A click on `entity` resolves to an attack by that entity.
    pub open spec fn click_attacker(self, g: Entity, entity: Entity) -> Option<Entity> {
        match self.selection_of(g) {
            Some(selected) => if selected != entity && self.component::<InMovementRange>(entity) is None
                && self.component::<InAttackRange>(entity) is Some {
                Some(selected)
            } else {
                None
            },
            None => None,
        }
    }

    /// The store after a click on the tile `entity` by the side `turn`: on
    /// the selected tile the selection is given up; on a tile in movement
    /// range the selected unit moves there; on a tile in attack range the
    /// selected unit attacks it; on any other tile the unit there is
    /// selected if it is eligible.
    pub open spec fn clicked(self, g: Entity, entity: Entity, turn: u8) -> Store {
        match self.selection_of(g) {
            Some(selected) => if selected == entity {
                self.deselected()
            } else if self.component::<InMovementRange>(entity) is Some {
                self.moved(selected, entity)
            } else if self.component::<InAttackRange>(entity) is Some {
                self.attacked(selected, entity)
            } else {
                self.selected_tile(entity, turn)
            },
            None => self.selected_tile(entity, turn),
        }
    }

    /// The numbers of the attack that the input leads to, if it leads to
    /// one, fit the machine.
    pub open spec fn update_fits(self, hover: Option<HexCoord>, clicked: bool) -> bool {
        clicked && self.pointed(hover) is Some ==> (self.hovered(hover).click_attacker(
            self.game_state_entity().unwrap(),
            self.pointed(hover).unwrap(),
        ) matches Some(attacker) ==> self.hovered(hover).combat_fits(
            attacker,
            self.pointed(hover).unwrap(),
        ))
    }

    /// The store after one input: the pointer is taken note of, and a click
    /// on a tile is answered for the side that was to move.
    pub open spec fn updated(self, hover: Option<HexCoord>, clicked: bool) -> Store {
        match self.pointed(hover) {
            Some(entity) => if clicked {
                self.hovered(hover).clicked(
                    self.game_state_entity().unwrap(),
                    entity,
                    self.the_game_state().unwrap().current_turn,
                )
            } else {
                self.hovered(hover)
            },
            None => self.hovered(hover),
        }
    }
}

/// Marking one more entity after marking a set of entities is marking the
/// set with that entity in it.
pub proof fn lemma_marked_step<T: Component>(s: Store, targets: Set<Entity>, e: Entity, m: T)
    requires
        s.wf(),
    ensures
        s.marked(targets, m).wf(),
        s.marked(targets, m).len() == s.len(),
        s.marked(targets, m).free == s.free,
        s.marked(targets, m).added(e, m) == s.marked(targets.insert(e), m),
        s.marked(Set::empty(), m) == s,
{
    let n = s.len();
    let base = column_or_empty(T::column(s), n);
    let col = Seq::new(
        n,
        |i: int|
            if targets.contains(i as usize) && s.live(i as usize) {
                Some(m)
            } else {
                base[i]
            },
    );
    let col2 = Seq::new(
        n,
        |i: int|
            if targets.insert(e).contains(i as usize) && s.live(i as usize) {
                Some(m)
            } else {
                base[i]
            },
    );
    T::column_laws(s, None, None);
    assert forall|i: int| 0 <= i < s.free.len() implies column_at(Some(col), (#[trigger] s.free[i]) as int) is None
        && column_at(Some(col2), s.free[i] as int) is None by {
        assert(s.free.contains(s.free[i]));
        assert(column_at(T::column(s), s.free[i] as int) is None);
    }
    T::column_laws(s, Some(col), Some(col2));
    T::column_laws(s, Some(col2), None);
    let t = s.marked(targets, m);
    if s.live(e) {
        assert forall|i: int| 0 <= i < s.free.len() implies column_at(
            Some(base.update(e as int, Some(m))),
            (#[trigger] s.free[i]) as int,
        ) is None by {
            assert(s.free.contains(s.free[i]));
            assert(column_at(T::column(s), s.free[i] as int) is None);
        }
        T::column_laws(s, Some(base.update(e as int, Some(m))), None);
        assert(targets.insert(e).contains(e));
        if exists|x: Entity| s.live(x) && targets.contains(x) {
            assert(col.update(e as int, Some(m)) =~= col2);
            let x = choose|x: Entity| s.live(x) && targets.contains(x);
            assert(targets.insert(e).contains(x));
        } else {
            assert(base.update(e as int, Some(m)) =~= col2);
        }
    } else {
        assert forall|x: Entity| s.live(x) implies targets.insert(e).contains(x) == targets.contains(x) by {}
        assert(col =~= col2);
        if exists|x: Entity| s.live(x) && targets.contains(x) {
            let x = choose|x: Entity| s.live(x) && targets.contains(x);
            assert(targets.insert(e).contains(x));
        }
    }
}

/// Recording a selection changes the game state and nothing else, and the
/// same entity carries the game state afterwards.
pub proof fn lemma_with_selection(s: Store, selected: Option<Entity>)
    requires
        s.wf(),
    ensures
        s.with_selection(selected).wf(),
        s.with_selection(selected).game_state_entity() == s.game_state_entity(),
        s.with_selection(selected) == (Store {
            game_state: s.with_selection(selected).game_state,
            ..s
        }),
        s.the_game_state() matches Some(game_state) ==> s.with_selection(selected).the_game_state()
            == Some(GameState { selected_entity: selected, ..game_state }),
{
    lemma_first_holder::<GameState>(s);
    if s.game_state_entity() is Some {
        let g = s.game_state_entity().unwrap();
        let game_state = s.component::<GameState>(g).unwrap();
        lemma_holders_after_replace(s, g, GameState { selected_entity: selected, ..game_state });
    }
}

/// Once the selection is given up, the game state records no selection and
/// no entity carries a range marker or the selection marker. Units, tiles
/// and the pointer's marker are as they were.
pub proof fn lemma_deselected_clears(s: Store, e: Entity)
    requires
        s.wf(),
        s.the_game_state() is Some,
    ensures
        s.deselected().wf(),
        s.deselected().game_state_entity() == s.game_state_entity(),
        s.deselected().the_game_state() == Some(
            GameState { selected_entity: None, ..s.the_game_state().unwrap() },
        ),
        s.deselected().component::<Selected>(e) is None,
        s.deselected().component::<InMovementRange>(e) is None,
        s.deselected().component::<InAttackRange>(e) is None,
        s.deselected() == (Store {
            game_state: s.deselected().game_state,
            selected: s.deselected().selected,
            in_movement_range: s.deselected().in_movement_range,
            in_attack_range: s.deselected().in_attack_range,
            ..s
        }),
{
    lemma_with_selection(s, None);
}

/// After the turn ends the other side is to move and the turn number is one
/// more; every unit of the side now to move has its full movement and has
/// not acted, with the health it had; every other unit is as it was; and no
/// team, stats, position or terrain has changed.
pub proof fn lemma_turn_reset_complete(s: Store, e: Entity)
    requires
        s.wf(),
        s.the_game_state() is Some,
        s.the_game_state().unwrap().current_turn <= 1,
    ensures
        s.turn_ended().wf(),
        s.turn_ended().the_game_state() == Some(
            GameState {
                current_turn: (1 - s.the_game_state().unwrap().current_turn) as u8,
                turn_number: (s.the_game_state().unwrap().turn_number + 1) as i32,
                selected_entity: None,
                ..s.the_game_state().unwrap()
            },
        ),
        s.turn_ended().component::<Team>(e) == s.component::<Team>(e),
        s.turn_ended().component::<UnitStats>(e) == s.component::<UnitStats>(e),
        s.turn_ended().component::<Position>(e) == s.component::<Position>(e),
        s.turn_ended().component::<Terrain>(e) == s.component::<Terrain>(e),
        (s.component::<Team>(e) is Some && s.component::<UnitStats>(e) is Some && s.component::<UnitState>(
            e,
        ) is Some && s.component::<Team>(e).unwrap().team_id == 1 - s.the_game_state().unwrap().current_turn)
            ==> s.turn_ended().component::<UnitState>(e) == Some(
            rested(s.component::<UnitStats>(e).unwrap(), s.component::<UnitState>(e).unwrap()),
        ),
        !(s.component::<Team>(e) is Some && s.component::<UnitStats>(e) is Some && s.component::<Team>(
            e,
        ).unwrap().team_id == 1 - s.the_game_state().unwrap().current_turn)
            ==> s.turn_ended().component::<UnitState>(e) == s.component::<UnitState>(e),
{
    lemma_first_holder::<GameState>(s);
    let g = s.game_state_entity().unwrap();
    let game_state = s.component::<GameState>(g).unwrap();
    let next = (1 - game_state.current_turn) as u8;
    let turned = GameState {
        current_turn: next,
        turn_number: (game_state.turn_number + 1) as i32,
        ..game_state
    };
    lemma_holders_after_replace(s, g, turned);
    let s1 = s.with_next_turn();
    assert(s1 == s.added(g, turned));
    assert(s1.wf());
    let s2 = s1.team_reset(next);
    assert(s2.wf());
    assert(s2.game_state == s1.game_state);
    assert(s2.game_state_entity() == Some(g));
    assert(s2.the_game_state() == Some(turned));
    lemma_deselected_clears(s2, e);
}

/// A unit that is selected is the only one that carries the selection
/// marker, and the game state records it.
pub proof fn lemma_selected_is_only(s: Store, entity: Entity, turn: u8, e: Entity)
    requires
        s.wf(),
        s.the_game_state() is Some,
        s.eligible(entity, turn),
    ensures
        s.selected_tile(entity, turn).wf(),
        s.selected_tile(entity, turn).component::<Selected>(e) is Some <==> e == entity,
        s.selected_tile(entity, turn).the_game_state() == Some(
            GameState { selected_entity: Some(entity), ..s.the_game_state().unwrap() },
        ),
{
    lemma_deselected_clears(s, e);
    lemma_deselected_clears(s, entity);
    let s1 = s.deselected();
    let s2 = s1.added(entity, Selected);
    assert(s2.wf());
    assert(s2.game_state == s1.game_state);
    lemma_with_selection(s2, Some(entity));
    let s3 = s2.with_selection(Some(entity));
    lemma_ranged_frame(s3, entity);
}

/// Marking ranges changes the two tables of range markers and nothing else.
pub proof fn lemma_ranged_frame(s: Store, entity: Entity)
    requires
        s.wf(),
    ensures
        s.ranged(entity).wf(),
        s.ranged(entity) == (Store {
            in_movement_range: s.ranged(entity).in_movement_range,
            in_attack_range: s.ranged(entity).in_attack_range,
            ..s
        }),
{
    if s.component::<Position>(entity) is Some && s.component::<UnitState>(entity) is Some {
        let position = s.component::<Position>(entity).unwrap();
        let state = s.component::<UnitState>(entity).unwrap();
        let moves = s.tiles_of(s.movement_range(position.coord, state.movement_left as int));
        lemma_marked_step(s, moves, 0, InMovementRange);
        let s1 = s.marked(moves, InMovementRange);
        lemma_marked_step(
            s1,
            s.hostile_tiles_of(entity, s.attack_cells(entity, position.coord)),
            0,
            InAttackRange,
        );
    }
}

/// Taking note of the pointer changes the pointer's markers and what the
/// game state records as under the pointer, and nothing else: the same
/// entity carries the game state, the selection is as it was, and the tile
/// under the pointer is the one that the map gives for the cell.
pub proof fn lemma_hovered_frame(s: Store, hover: Option<HexCoord>)
    requires
        s.wf(),
    ensures
        s.hovered(hover).wf(),
        s.hovered(hover) == (Store {
            hovering: s.hovered(hover).hovering,
            game_state: s.hovered(hover).game_state,
            ..s
        }),
        s.hovered(hover).game_state_entity() == s.game_state_entity(),
        s.game_state_entity() matches Some(g) ==> s.hovered(hover).selection_of(g) == s.selection_of(g),
        s.pointed(hover) == (match (s.game_state_entity(), s.map_settings_entity(), hover) {
            (Some(_), Some(_), Some(coord)) => s.tile_at(coord),
            _ => None,
        }),
{
    lemma_first_holder::<GameState>(s);
    if s.game_state_entity() is Some && s.map_settings_entity() is Some {
        let g = s.game_state_entity().unwrap();
        let s1 = s.without::<Hovering>();
        assert(s1.game_state == s.game_state);
        assert(s1.map_settings == s.map_settings);
        assert(s1.hex_entity_map == s.hex_entity_map);
        assert(s1.hex_map() == s.hex_map());
        if s.pointed(hover) is Some {
            let entity = s.pointed(hover).unwrap();
            let s2 = s1.added(entity, Hovering);
            assert(s2.game_state == s.game_state);
            let game_state = s2.component::<GameState>(g).unwrap();
            lemma_holders_after_replace(s2, g, GameState { hover_entity: Some(entity), ..game_state });
        }
    }
}

} // verus!
