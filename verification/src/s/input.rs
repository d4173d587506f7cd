//! Answering the pointer: hovering, selecting, moving, attacking, and
//! passing the turn.

use vstd::prelude::*;
use crate::c::game::{GameState, Hovering, InAttackRange, InMovementRange, Selected, Team};
use crate::c::hex::{HexCoord, HexSet, Position, Terrain, UnitState, UnitStats};
use crate::e::entity::{lemma_first_holder, Component, Entity, World};
use crate::e::factory::HexMapFactory;
use crate::s::rules::{combat_damage, lemma_hovered_frame, lemma_marked_step};

verus! {

/// Answers the pointer: selects, moves and attacks, and passes the turn.
pub struct InputSystem;

impl InputSystem {
    /// Removes the components of kind `T` from all entities.
    pub fn clear_markers<T: Component>(world: &mut World)
        requires
            old(world).wf(),
        ensures
            final(world).wf(),
            final(world)@ == old(world)@.without::<T>(),
    {
        proof {
            lemma_first_holder::<T>(world@);
            T::column_laws(world@, None, None);
        }
        let mut entities: Vec<Entity> = Vec::new();
        let holders = world.query::<T>();
        for k in 0..holders.len()
            invariant
                holders@.len() == world@.holders::<T>().len(),
                forall|j: int|
                    0 <= j < holders@.len() ==> (#[trigger] holders@[j]).0 == world@.holders::<T>()[j],
                entities@ == world@.holders::<T>().take(k as int),
        {
            entities.push(holders[k].0);
            assert(world@.holders::<T>().take(k + 1) =~= world@.holders::<T>().take(k as int).push(
                holders@[k as int].0,
            ));
        }
        let ghost start = world@;
        let ghost ids = entities@;
        proof {
            assert(ids =~= start.holders::<T>());
            if T::column(start) is Some {
                let c = T::column(start).unwrap();
                assert(c.len() == start.len());
                assert(Seq::new(
                    start.len(),
                    |i: int|
                        if ids.take(0).contains(i as usize) {
                            None
                        } else {
                            c[i]
                        },
                ) =~= c);
            }
        }
        for k in 0..entities.len()
            invariant
                start == old(world)@,
                start.wf(),
                ids == entities@,
                ids == start.holders::<T>(),
                world.wf(),
                T::column(start) is None ==> world@ == start,
                T::column(start) is Some ==> world@ == T::with_column(
                    start,
                    Some(
                        Seq::new(
                            start.len(),
                            |i: int|
                                if ids.take(k as int).contains(i as usize) {
                                    None
                                } else {
                                    T::column(start).unwrap()[i]
                                },
                        ),
                    ),
                ),
        {
            let entity = entities[k];
            let ghost earlier = ids.take(k as int);
            let ghost later = ids.take(k + 1);
            proof {
                assert(later =~= earlier.push(entity));
                assert forall|e: Entity| later.contains(e) <==> earlier.contains(e) || e == entity by {
                    if earlier.contains(e) {
                        let i = choose|i: int| 0 <= i < earlier.len() && earlier[i] == e;
                        assert(later[i] == e);
                    }
                    if e == entity {
                        assert(later[k as int] == e);
                    }
                    if later.contains(e) {
                        let i = choose|i: int| 0 <= i < later.len() && later[i] == e;
                        if i < k {
                            assert(earlier[i] == e);
                        }
                    }
                }
                lemma_first_holder::<T>(start);
                T::column_laws(start, None, None);
                assert(start.holders::<T>()[k as int] == entity);
                assert(entity < start.len());
                assert(T::column(start) is Some);
                let c = T::column(start).unwrap();
                assert(c.len() == start.len());
                let before = Seq::new(
                    start.len(),
                    |i: int|
                        if earlier.contains(i as usize) {
                            None
                        } else {
                            c[i]
                        },
                );
                let after = Seq::new(
                    start.len(),
                    |i: int|
                        if later.contains(i as usize) {
                            None
                        } else {
                            c[i]
                        },
                );
                T::column_laws(start, Some(before), Some(after));
                T::column_laws(start, Some(after), None);
                assert(before.update(entity as int, None) =~= after);
            }
            world.remove_component::<T>(entity);
        }
        proof {
            assert(ids.take(ids.len() as int) =~= ids);
            if T::column(start) is Some {
                let c = T::column(start).unwrap();
                assert(c.len() == start.len());
                assert(Seq::new(
                    start.len(),
                    |i: int|
                        if ids.contains(i as usize) {
                            None
                        } else {
                            c[i]
                        },
                ) =~= Seq::new(c.len(), |i: int| None::<T>)) by {
                    assert forall|i: int| 0 <= i < c.len() && !ids.contains(i as usize) implies c[i] is None by {
                        if c[i] is Some {
                            assert(start.component::<T>(i as usize) is Some);
                        }
                    }
                }
            }
        }
    }

    /// Records `selected` in the game state as the selection.
    fn set_selection(world: &mut World, selected: Option<Entity>)
        requires
            old(world).wf(),
        ensures
            final(world).wf(),
            final(world)@ == old(world)@.with_selection(selected),
    {
        if let Some(game_state_entity) = HexMapFactory::get_game_state_entity(world) {
            if let Some(game_state) = world.get_component_mut::<GameState>(game_state_entity) {
                game_state.selected_entity = selected;
            }
        }
    }

    /// Gives up the selection: no entity is selected afterwards, and no
    /// tile carries a range marker or the selection marker.
    pub fn deselect_current(world: &mut World)
        requires
            old(world).wf(),
        ensures
            final(world).wf(),
            final(world)@ == old(world)@.deselected(),
    {
        if HexMapFactory::get_game_state_entity(world).is_none() {
            return ;
        }
        Self::set_selection(world, None);
        Self::clear_markers::<InMovementRange>(world);
        Self::clear_markers::<InAttackRange>(world);
        Self::clear_markers::<Selected>(world);
    }

    /// Selects the unit on `entity` for the side `current_turn` if it is of
    /// that side, has movement left and has not acted; it is then the only
    /// selected unit, and its ranges are marked. Does nothing otherwise.
    pub fn select_tile(world: &mut World, entity: Entity, current_turn: u8)
        requires
            old(world).wf(),
        ensures
            final(world).wf(),
            final(world)@ == old(world)@.selected_tile(entity, current_turn),
    {
        let team_matches = match world.get_component::<Team>(entity) {
            Some(team) => team.team_id == current_turn,
            None => false,
        };
        let has_movement = match world.get_component::<UnitState>(entity) {
            Some(unit_state) => unit_state.movement_left > 0 && !unit_state.has_acted,
            None => false,
        };
        if team_matches && has_movement {
            Self::deselect_current(world);
            world.add_component(entity, Selected);
            Self::set_selection(world, Some(entity));
            Self::calculate_ranges(world, entity);
        }
    }

    /// Marks the ranges of the unit on `entity`: every tile that it can
    /// move to, and every tile within its attack range that carries a
    /// hostile unit.
    pub fn calculate_ranges(world: &mut World, entity: Entity)
        requires
            old(world).wf(),
        ensures
            final(world).wf(),
            final(world)@ == old(world)@.ranged(entity),
    {
        let coord = match world.get_component::<Position>(entity) {
            Some(position) => position.coord,
            None => {
                return ;
            },
        };
        let movement_points = match world.get_component::<UnitState>(entity) {
            Some(unit_state) => unit_state.movement_left,
            None => {
                return ;
            },
        };
        let attack_range = match world.get_component::<UnitStats>(entity) {
            Some(unit_stats) => Self::calculate_attack_range(world, &coord, unit_stats.range),
            None => HexSet::new(),
        };
        let movement_range = Self::calculate_movement_range(world, &coord, movement_points);
        let hex_entities = HexMapFactory::get_hex_entity_map(world);
        let attacker_team = match world.get_component::<Team>(entity) {
            Some(team) => Some(team.team_id),
            None => None,
        };
        let ghost start = world@;
        let ghost moves = movement_range@;
        let ghost cells = attack_range@;
        let ghost done: Set<Entity> = Set::empty();
        proof {
            lemma_marked_step(start, done, 0, InMovementRange);
        }
        let move_coords = movement_range.coords();
        for k in 0..move_coords.len()
            invariant
                start.wf(),
                world.wf(),
                hex_entities@ == start.hex_map(),
                forall|c: HexCoord| move_coords@.contains(c) <==> moves.contains(c),
                world@ == start.marked(done, InMovementRange),
                forall|e: Entity| done.contains(e) ==> start.tiles_of(moves).contains(e),
                forall|j: int|
                    0 <= j < k && (#[trigger] start.tile_at(move_coords@[j])) is Some ==> done.contains(
                        start.tile_at(move_coords@[j]).unwrap(),
                    ),
        {
            let coord = move_coords[k];
            assert(move_coords@.contains(coord));
            if let Some(tile_entity) = hex_entities.get(&coord) {
                proof {
                    lemma_marked_step(start, done, tile_entity, InMovementRange);
                    assert(start.tile_at(coord) == Some(tile_entity));
                    done = done.insert(tile_entity);
                }
                world.add_component(tile_entity, InMovementRange);
            }
        }
        proof {
            assert(done =~= start.tiles_of(moves)) by {
                assert forall|e: Entity| start.tiles_of(moves).contains(e) implies done.contains(e) by {
                    let c = choose|c: HexCoord| moves.contains(c) && #[trigger] start.tile_at(c) == Some(e);
                    let j = choose|j: int| 0 <= j < move_coords@.len() && move_coords@[j] == c;
                    assert(start.tile_at(move_coords@[j]) == Some(e));
                }
            }
        }
        let ghost middle = world@;
        let ghost hit: Set<Entity> = Set::empty();
        proof {
            lemma_marked_step(start, done, 0, InMovementRange);
            lemma_marked_step(middle, hit, 0, InAttackRange);
        }
        let attack_coords = attack_range.coords();
        for k in 0..attack_coords.len()
            invariant
                start.wf(),
                middle.wf(),
                world.wf(),
                middle == start.marked(start.tiles_of(moves), InMovementRange),
                hex_entities@ == start.hex_map(),
                attacker_team == (match start.component::<Team>(entity) {
                    Some(team) => Some(team.team_id),
                    None => None,
                }),
                forall|c: HexCoord| attack_coords@.contains(c) <==> cells.contains(c),
                world@ == middle.marked(hit, InAttackRange),
                forall|e: Entity| hit.contains(e) ==> start.hostile_tiles_of(entity, cells).contains(e),
                forall|j: int|
                    0 <= j < k && (#[trigger] start.tile_at(attack_coords@[j])) is Some && start.hostile(
                        entity,
                        start.tile_at(attack_coords@[j]).unwrap(),
                    ) ==> hit.contains(start.tile_at(attack_coords@[j]).unwrap()),
        {
            let coord = attack_coords[k];
            assert(attack_coords@.contains(coord));
            if let Some(tile_entity) = hex_entities.get(&coord) {
                let is_enemy = match world.get_component::<Team>(tile_entity) {
                    Some(team) => match attacker_team {
                        Some(own) => team.team_id != own,
                        None => false,
                    },
                    None => false,
                };
                proof {
                    lemma_marked_step(middle, hit, tile_entity, InAttackRange);
                    assert(start.tile_at(coord) == Some(tile_entity));
                    assert(is_enemy == start.hostile(entity, tile_entity));
                }
                if is_enemy {
                    proof {
                        hit = hit.insert(tile_entity);
                    }
                    world.add_component(tile_entity, InAttackRange);
                }
            }
        }
        proof {
            assert(hit =~= start.hostile_tiles_of(entity, cells)) by {
                assert forall|e: Entity| start.hostile_tiles_of(entity, cells).contains(e) implies hit.contains(
                    e,
                ) by {
                    let c = choose|c: HexCoord| cells.contains(c) && #[trigger] start.tile_at(c) == Some(e);
                    let j = choose|j: int| 0 <= j < attack_coords@.len() && attack_coords@[j] == c;
                    assert(start.tile_at(attack_coords@[j]) == Some(e));
                }
            }
        }
    }

    /// Copies what `from` has of kind `T` to `to`.
    fn copy_component<T: Component + Copy>(world: &mut World, from: Entity, to: Entity)
        requires
            old(world).wf(),
        ensures
            final(world).wf(),
            final(world)@ == old(world)@.copied::<T>(from, to),
    {
        let found = match world.get_component::<T>(from) {
            Some(component) => Some(*component),
            None => None,
        };
        if let Some(component) = found {
            world.add_component(to, component);
        }
    }

    /// Sends the selected unit on `from` to `to`, a tile marked as in
    /// movement range: the unit pays what entering `to` costs, and its
    /// stats, state and team are copied to `to`. A unit left without
    /// movement is deselected; any other stays selected on `to`, with its
    /// ranges marked anew. Does nothing if the move cannot take place.
    pub fn move_unit(world: &mut World, from_entity: Entity, to_entity: Entity)
        requires
            old(world).wf(),
        ensures
            final(world).wf(),
            final(world)@ == old(world)@.moved(from_entity, to_entity),
    {
        if world.get_component::<InMovementRange>(to_entity).is_none() {
            return ;
        }
        if world.get_component::<Position>(from_entity).is_none() || world.get_component::<Position>(
            to_entity,
        ).is_none() {
            return ;
        }
        let movement_cost = match world.get_component::<Terrain>(to_entity) {
            Some(terrain) => terrain.terrain_type.movement_cost(),
            None => {
                return ;
            },
        };
        let enough = match world.get_component::<UnitState>(from_entity) {
            Some(unit_state) => unit_state.movement_left >= movement_cost,
            None => false,
        };
        if !enough {
            return ;
        }
        if let Some(unit_state) = world.get_component_mut::<UnitState>(from_entity) {
            unit_state.movement_left -= movement_cost;
        }
        Self::copy_component::<UnitStats>(world, from_entity, to_entity);
        Self::copy_component::<UnitState>(world, from_entity, to_entity);
        Self::copy_component::<Team>(world, from_entity, to_entity);
        let should_deselect = match world.get_component::<UnitState>(to_entity) {
            Some(unit_state) => unit_state.movement_left <= 0,
            None => true,
        };
        if should_deselect {
            Self::deselect_current(world);
        } else {
            Self::set_selection(world, Some(to_entity));
            Self::clear_markers::<InMovementRange>(world);
            Self::clear_markers::<InAttackRange>(world);
            Self::clear_markers::<Selected>(world);
            world.add_component(to_entity, Selected);
            Self::calculate_ranges(world, to_entity);
        }
    }

    /// Damage of an attack: the attack value less half the defense value,
    /// the half rounded down, and at least 1.
    pub fn damage(attack: i32, defense: i32) -> (d: i64)
        ensures
            d == combat_damage(attack as int, defense as int),
            d >= 1,
    {
        let half: i64 = if defense >= 0 {
            defense as i64 / 2
        } else {
            -((1 - defense as i64) / 2)
        };
        let raw: i64 = attack as i64 - half;
        if raw > 1 {
            raw
        } else {
            1
        }
    }

    /// Whether the numbers of an attack of `attacker` on `defender` fit the
    /// machine; an attack that would not take place fits.
    pub fn combat_fits(world: &World, attacker: Entity, defender: Entity) -> (fits: bool)
        requires
            world.wf(),
        ensures
            fits == world@.combat_fits(attacker, defender),
    {
        if world.get_component::<InAttackRange>(defender).is_none() {
            return true;
        }
        let attack = match world.get_component::<UnitStats>(attacker) {
            Some(stats) => stats.attack,
            None => {
                return true;
            },
        };
        let defense = match world.get_component::<UnitStats>(defender) {
            Some(stats) => stats.defense,
            None => {
                return true;
            },
        };
        let damage = Self::damage(attack, defense);
        if damage > i32::MAX as i64 {
            return false;
        }
        match world.get_component::<UnitState>(defender) {
            Some(state) => state.health as i64 - damage >= i32::MIN as i64,
            None => true,
        }
    }

    /// Whether the turn can pass: the side to move is 0 or 1, and the turn
    /// number can still grow.
    pub fn turn_fits(world: &World) -> (fits: bool)
        requires
            world.wf(),
        ensures
            fits == world@.turn_fits(),
    {
        let game_state_entity = match HexMapFactory::get_game_state_entity(world) {
            Some(entity) => entity,
            None => {
                return true;
            },
        };
        match world.get_component::<GameState>(game_state_entity) {
            Some(game_state) => game_state.current_turn <= 1 && game_state.turn_number < i32::MAX,
            None => true,
        }
    }

    /// Whether the numbers of the attack that the input leads to, if it
    /// leads to one, fit the machine.
    pub fn update_fits(world: &World, hover: Option<HexCoord>, clicked: bool) -> (fits: bool)
        requires
            world.wf(),
        ensures
            fits == world@.update_fits(hover, clicked),
    {
        proof {
            lemma_hovered_frame(world@, hover);
        }
        if !clicked {
            return true;
        }
        let game_state_entity = match HexMapFactory::get_game_state_entity(world) {
            Some(entity) => entity,
            None => {
                return true;
            },
        };
        if HexMapFactory::get_map_settings_entity(world).is_none() {
            return true;
        }
        let hex_coord = match hover {
            Some(coord) => coord,
            None => {
                return true;
            },
        };
        let entity = match HexMapFactory::get_hex_entity_map(world).get(&hex_coord) {
            Some(entity) => entity,
            None => {
                return true;
            },
        };
        let selected_entity = match world.get_component::<GameState>(game_state_entity) {
            Some(game_state) => game_state.selected_entity,
            None => None,
        };
        match selected_entity {
            Some(selected) => {
                if selected != entity && world.get_component::<InMovementRange>(entity).is_none()
                    && world.get_component::<InAttackRange>(entity).is_some() {
                    Self::combat_fits(world, selected, entity)
                } else {
                    true
                }
            },
            None => true,
        }
    }

    /// Lets the selected unit on `attacker_entity` attack the unit on
    /// `defender_entity`, a tile marked as in attack range: the defender
    /// loses the damage, the attacker's turn ends, the outcome of the game
    /// is recorded if the defender is destroyed and a side has no living
    /// unit left, and the selection is given up. Does nothing if the attack
    /// cannot take place.
    pub fn attack_unit(world: &mut World, attacker_entity: Entity, defender_entity: Entity)
        requires
            old(world).wf(),
            old(world)@.combat_fits(attacker_entity, defender_entity),
        ensures
            final(world).wf(),
            final(world)@ == old(world)@.attacked(attacker_entity, defender_entity),
    {
        if world.get_component::<InAttackRange>(defender_entity).is_none() {
            return ;
        }
        let attacker_attack = match world.get_component::<UnitStats>(attacker_entity) {
            Some(stats) => stats.attack,
            None => {
                return ;
            },
        };
        let defender_defense = match world.get_component::<UnitStats>(defender_entity) {
            Some(stats) => stats.defense,
            None => {
                return ;
            },
        };
        let damage = Self::damage(attacker_attack, defender_defense);
        let defender_destroyed = match world.get_component_mut::<UnitState>(defender_entity) {
            Some(defender_state) => {
                defender_state.health = (defender_state.health as i64 - damage) as i32;
                defender_state.health <= 0
            },
            None => false,
        };
        if let Some(attacker_state) = world.get_component_mut::<UnitState>(attacker_entity) {
            attacker_state.movement_left = 0;
            attacker_state.has_acted = true;
        }
        if defender_destroyed {
            let (game_over, player_won) = HexMapFactory::check_game_over(world);
            if game_over {
                if let Some(game_state_entity) = HexMapFactory::get_game_state_entity(world) {
                    if let Some(game_state) = world.get_component_mut::<GameState>(game_state_entity) {
                        game_state.game_over = true;
                        game_state.player_won = player_won;
                    }
                }
            }
        }
        Self::deselect_current(world);
    }

    /// Ends the turn: the other side is to move, the turn number grows by
    /// one, the units of the side now to move are rested, and the selection
    /// is given up. Does nothing without a game state.
    pub fn end_turn(world: &mut World)
        requires
            old(world).wf(),
            old(world)@.turn_fits(),
        ensures
            final(world).wf(),
            final(world)@ == old(world)@.turn_ended(),
    {
        let game_state_entity = match HexMapFactory::get_game_state_entity(world) {
            Some(entity) => entity,
            None => {
                return ;
            },
        };
        let current_turn = match world.get_component::<GameState>(game_state_entity) {
            Some(game_state) => game_state.current_turn,
            None => {
                return ;
            },
        };
        let next_turn = 1 - current_turn;
        if let Some(game_state) = world.get_component_mut::<GameState>(game_state_entity) {
            game_state.current_turn = next_turn;
            game_state.turn_number += 1;
        }
        HexMapFactory::reset_team_units_for_new_turn(world, next_turn);
        Self::deselect_current(world);
    }

    /// Answers a click on the tile `entity` for the side `current_turn`.
    pub fn click(world: &mut World, game_state_entity: Entity, entity: Entity, current_turn: u8)
        requires
            old(world).wf(),
            old(world)@.click_attacker(game_state_entity, entity) matches Some(attacker) ==> old(
                world,
            )@.combat_fits(attacker, entity),
        ensures
            final(world).wf(),
            final(world)@ == old(world)@.clicked(game_state_entity, entity, current_turn),
    {
        let selected_entity = match world.get_component::<GameState>(game_state_entity) {
            Some(game_state) => game_state.selected_entity,
            None => None,
        };
        match selected_entity {
            Some(selected) => {
                if selected == entity {
                    Self::deselect_current(world);
                } else {
                    let in_movement_range = world.get_component::<InMovementRange>(entity).is_some();
                    let in_attack_range = world.get_component::<InAttackRange>(entity).is_some();
                    if in_movement_range {
                        Self::move_unit(world, selected, entity);
                    } else if in_attack_range {
                        Self::attack_unit(world, selected, entity);
                    } else {
                        Self::select_tile(world, entity, current_turn);
                    }
                }
            },
            None => {
                Self::select_tile(world, entity, current_turn);
            },
        }
    }

    /// Handles one input: `hover` is the cell under the pointer, if the
    /// pointer is over the board, and `clicked` says whether the button was
    /// pressed. The marker of the tile under the pointer follows the
    /// pointer; a click on a tile gives up the selection, moves or attacks
    /// with the selected unit, or selects the unit on the tile. Does nothing
    /// in a store that lacks the game state or the map settings.
    pub fn update(world: &mut World, hover: Option<HexCoord>, clicked: bool)
        requires
            old(world).wf(),
            old(world)@.update_fits(hover, clicked),
        ensures
            final(world).wf(),
            final(world)@ == old(world)@.updated(hover, clicked),
    {
        let game_state_entity = match HexMapFactory::get_game_state_entity(world) {
            Some(entity) => entity,
            None => {
                return ;
            },
        };
        if HexMapFactory::get_map_settings_entity(world).is_none() {
            return ;
        }
        let current_turn = match world.get_component::<GameState>(game_state_entity) {
            Some(game_state) => game_state.current_turn,
            None => {
                return ;
            },
        };
        Self::clear_markers::<Hovering>(world);
        if let Some(hex_coord) = hover {
            let hex_entities = HexMapFactory::get_hex_entity_map(world);
            if let Some(entity) = hex_entities.get(&hex_coord) {
                world.add_component(entity, Hovering);
                if let Some(game_state) = world.get_component_mut::<GameState>(game_state_entity) {
                    game_state.hover_entity = Some(entity);
                }
                if clicked {
                    Self::click(world, game_state_entity, entity, current_turn);
                }
            }
        }
    }
}

} // verus!
