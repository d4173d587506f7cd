use openvictoria::c::{
    GameState, HexCoord, HexEntityMap, Hovering, InAttackRange, InMovementRange, MapSettings, Position,
    Selected, Team, Terrain, TerrainType, UnitState, UnitStats, UnitType,
};
use openvictoria::e::{Entity, HexMapFactory, World};
use openvictoria::s::InputSystem;

fn seeded() -> World {
    let mut world = World::new();
    HexMapFactory::create_map(&mut world, 8, 8, 30.0f32.to_bits(), 0, 0);
    world
}

/// A map of `width` by `height` cells, all of the same terrain, without units.
fn field(width: i32, height: i32, terrain_type: TerrainType) -> World {
    let mut world = World::new();
    let game = world.create_entity();
    world.add_component(
        game,
        GameState {
            selected_entity: None,
            hover_entity: None,
            current_turn: 0,
            turn_number: 1,
            game_over: false,
            player_won: false,
        },
    );
    let settings = world.create_entity();
    world.add_component(
        settings,
        MapSettings { map_width: width, map_height: height, hex_size: 0, origin_x: 0, origin_y: 0 },
    );
    let mut map = HexEntityMap::new();
    for q in 0..width {
        for r in 0..height {
            let tile = world.create_entity();
            world.add_component(tile, Position { coord: HexCoord::new(q, r) });
            world.add_component(tile, Terrain { terrain_type });
            map.insert(HexCoord::new(q, r), tile);
        }
    }
    world.add_component(settings, map);
    world
}

fn tile(world: &World, q: i32, r: i32) -> Entity {
    HexMapFactory::get_hex_entity_map(world).get(&HexCoord::new(q, r)).unwrap()
}

fn game(world: &World) -> GameState {
    let entity = HexMapFactory::get_game_state_entity(world).unwrap();
    *world.get_component::<GameState>(entity).unwrap()
}

fn cells(mut found: Vec<HexCoord>) -> Vec<(i32, i32)> {
    found.sort_by_key(|c| (c.q, c.r));
    found.into_iter().map(|c| (c.q, c.r)).collect()
}

fn marked<T: openvictoria::e::Component>(world: &World) -> Vec<(i32, i32)> {
    let mut found: Vec<(i32, i32)> = world
        .query::<T>()
        .into_iter()
        .map(|(e, _)| {
            let c = world.get_component::<Position>(e).unwrap().coord;
            (c.q, c.r)
        })
        .collect();
    found.sort();
    found
}

#[test]
fn damage_is_attack_less_half_defense_and_at_least_one() {
    assert_eq!(InputSystem::damage(3, 2), 2);
    assert_eq!(InputSystem::damage(4, 1), 4);
    assert_eq!(InputSystem::damage(5, 1), 5);
    assert_eq!(InputSystem::damage(5, 3), 4);
    assert_eq!(InputSystem::damage(1, 2), 1);
    assert_eq!(InputSystem::damage(0, 0), 1);
    assert_eq!(InputSystem::damage(1, 100), 1);
    assert_eq!(InputSystem::damage(-5, 0), 1);
    assert_eq!(InputSystem::damage(3, -1), 4);
    assert_eq!(InputSystem::damage(3, -2), 4);
    assert_eq!(InputSystem::damage(3, -3), 5);
    assert_eq!(InputSystem::damage(i32::MAX, i32::MIN), i32::MAX as i64 + (1i64 << 30));
    assert_eq!(InputSystem::damage(i32::MIN, i32::MAX), 1);
}

#[test]
fn damage_is_never_below_one() {
    let values = [i32::MIN, -1000, -3, -2, -1, 0, 1, 2, 3, 7, 1000, i32::MAX];
    for attack in values.iter() {
        for defense in values.iter() {
            assert!(InputSystem::damage(*attack, *defense) >= 1);
        }
    }
}

#[test]
fn infantry_on_a_mountain_reaches_the_two_forests() {
    let world = seeded();
    let range = InputSystem::calculate_movement_range(&world, &HexCoord::new(1, 1), 2);
    assert_eq!(cells(range.coords()), vec![(0, 1), (1, 0)]);
    assert_eq!(range.len(), 2);
    assert!(!range.contains(&HexCoord::new(1, 1)));
}

#[test]
fn cavalry_range_follows_the_terrain() {
    let world = seeded();
    let range = InputSystem::calculate_movement_range(&world, &HexCoord::new(3, 1), 4);
    assert_eq!(
        cells(range.coords()),
        vec![(0, 4), (1, 3), (1, 4), (2, 2), (2, 3), (3, 2), (4, 0), (4, 1), (5, 0)]
    );
}

#[test]
fn movement_range_grows_with_the_budget() {
    let world = seeded();
    let starts = [HexCoord::new(1, 1), HexCoord::new(3, 1), HexCoord::new(4, 4), HexCoord::new(0, 0)];
    for start in starts.iter() {
        let mut smaller = InputSystem::calculate_movement_range(&world, start, -1);
        assert_eq!(smaller.len(), 0);
        for budget in 0..8i32 {
            let larger = InputSystem::calculate_movement_range(&world, start, budget);
            for c in smaller.coords() {
                assert!(larger.contains(&c));
            }
            assert!(larger.len() >= smaller.len());
            assert!(!larger.contains(start));
            smaller = larger;
        }
    }
}

#[test]
fn movement_range_on_open_ground_is_a_disc() {
    let world = field(9, 9, TerrainType::Plain);
    let start = HexCoord::new(4, 4);
    assert_eq!(InputSystem::calculate_movement_range(&world, &start, 0).len(), 0);
    assert_eq!(InputSystem::calculate_movement_range(&world, &start, 1).len(), 6);
    assert_eq!(InputSystem::calculate_movement_range(&world, &start, 2).len(), 18);
    let three = InputSystem::calculate_movement_range(&world, &start, 3);
    assert_eq!(three.len(), 36);
    for c in three.coords() {
        assert!(c.distance(&start) <= 3);
        assert!(c != start);
    }
}

#[test]
fn enemy_tiles_block_the_way() {
    let mut world = field(5, 1, TerrainType::Plain);
    HexMapFactory::add_player_unit(&mut world, HexCoord::new(0, 0), UnitType::Cavalry);
    HexMapFactory::add_enemy_unit(&mut world, HexCoord::new(2, 0), UnitType::Infantry);
    let range = InputSystem::calculate_movement_range(&world, &HexCoord::new(0, 0), 4);
    assert_eq!(cells(range.coords()), vec![(1, 0)]);
    let mut world = field(5, 1, TerrainType::Plain);
    HexMapFactory::add_player_unit(&mut world, HexCoord::new(0, 0), UnitType::Cavalry);
    HexMapFactory::add_player_unit(&mut world, HexCoord::new(2, 0), UnitType::Infantry);
    let range = InputSystem::calculate_movement_range(&world, &HexCoord::new(0, 0), 4);
    assert_eq!(cells(range.coords()), vec![(1, 0), (2, 0), (3, 0), (4, 0)]);
}

#[test]
fn the_side_to_move_decides_who_blocks() {
    let mut world = field(5, 1, TerrainType::Plain);
    HexMapFactory::add_player_unit(&mut world, HexCoord::new(2, 0), UnitType::Infantry);
    let open = InputSystem::calculate_movement_range(&world, &HexCoord::new(0, 0), 4);
    assert_eq!(open.len(), 4);
    let g = HexMapFactory::get_game_state_entity(&world).unwrap();
    world.get_component_mut::<GameState>(g).unwrap().current_turn = 1;
    let blocked = InputSystem::calculate_movement_range(&world, &HexCoord::new(0, 0), 4);
    assert_eq!(cells(blocked.coords()), vec![(1, 0)]);
}

#[test]
fn a_start_off_the_map_still_reaches_the_map() {
    let world = field(3, 3, TerrainType::Forest);
    let range = InputSystem::calculate_movement_range(&world, &HexCoord::new(-1, 1), 4);
    assert_eq!(cells(range.coords()), vec![(0, 0), (0, 1), (0, 2), (1, 0), (1, 1)]);
    let far = InputSystem::calculate_movement_range(&world, &HexCoord::new(i32::MAX, i32::MIN), 9);
    assert_eq!(far.len(), 0);
}

#[test]
fn movement_range_without_a_game_state_is_empty() {
    let mut world = World::new();
    let tile = world.create_entity();
    world.add_component(tile, Terrain { terrain_type: TerrainType::Plain });
    let range = InputSystem::calculate_movement_range(&world, &HexCoord::new(0, 0), 5);
    assert_eq!(range.len(), 0);
}

#[test]
fn attack_range_is_by_distance_alone() {
    let world = seeded();
    let range = InputSystem::calculate_attack_range(&world, &HexCoord::new(2, 2), 2);
    assert_eq!(range.len(), 18);
    for c in range.coords() {
        assert!(c.distance(&HexCoord::new(2, 2)) <= 2);
    }
    assert!(!range.contains(&HexCoord::new(2, 2)));
    let corner = InputSystem::calculate_attack_range(&world, &HexCoord::new(0, 0), 1);
    assert_eq!(cells(corner.coords()), vec![(0, 1), (1, 0)]);
    assert_eq!(InputSystem::calculate_attack_range(&world, &HexCoord::new(2, 2), 0).len(), 0);
    assert_eq!(InputSystem::calculate_attack_range(&world, &HexCoord::new(2, 2), -1).len(), 0);
    assert_eq!(InputSystem::calculate_attack_range(&world, &HexCoord::new(2, 2), 100).len(), 63);
}

#[test]
fn selecting_marks_the_unit_and_its_ranges() {
    let mut world = seeded();
    let infantry = tile(&world, 1, 1);
    InputSystem::select_tile(&mut world, infantry, 0);
    assert_eq!(game(&world).selected_entity, Some(infantry));
    assert_eq!(marked::<Selected>(&world), vec![(1, 1)]);
    assert_eq!(marked::<InMovementRange>(&world), vec![(0, 1), (1, 0)]);
    assert!(marked::<InAttackRange>(&world).is_empty());
}

#[test]
fn attack_markers_go_on_hostile_units_only() {
    let mut world = field(5, 5, TerrainType::Plain);
    HexMapFactory::add_player_unit(&mut world, HexCoord::new(2, 2), UnitType::Archer);
    HexMapFactory::add_player_unit(&mut world, HexCoord::new(2, 1), UnitType::Infantry);
    HexMapFactory::add_enemy_unit(&mut world, HexCoord::new(3, 2), UnitType::Infantry);
    HexMapFactory::add_enemy_unit(&mut world, HexCoord::new(2, 4), UnitType::Infantry);
    HexMapFactory::add_enemy_unit(&mut world, HexCoord::new(0, 0), UnitType::Infantry);
    let archer = tile(&world, 2, 2);
    InputSystem::select_tile(&mut world, archer, 0);
    assert_eq!(marked::<InAttackRange>(&world), vec![(2, 4), (3, 2)]);
    let moves = marked::<InMovementRange>(&world);
    assert!(moves.contains(&(2, 1)));
    assert!(!moves.contains(&(3, 2)));
    assert!(!moves.contains(&(2, 2)));
}

#[test]
fn ineligible_units_are_not_selected() {
    let mut world = seeded();
    let enemy = tile(&world, 6, 6);
    InputSystem::select_tile(&mut world, enemy, 0);
    assert_eq!(game(&world).selected_entity, None);
    let empty = tile(&world, 0, 0);
    InputSystem::select_tile(&mut world, empty, 0);
    assert_eq!(game(&world).selected_entity, None);
    let infantry = tile(&world, 1, 1);
    world.get_component_mut::<UnitState>(infantry).unwrap().has_acted = true;
    InputSystem::select_tile(&mut world, infantry, 0);
    assert_eq!(game(&world).selected_entity, None);
    world.get_component_mut::<UnitState>(infantry).unwrap().has_acted = false;
    world.get_component_mut::<UnitState>(infantry).unwrap().movement_left = 0;
    InputSystem::select_tile(&mut world, infantry, 0);
    assert_eq!(game(&world).selected_entity, None);
    assert!(world.query::<Selected>().is_empty());
    assert!(world.query::<InMovementRange>().is_empty());
    InputSystem::select_tile(&mut world, enemy, 1);
    assert_eq!(game(&world).selected_entity, Some(enemy));
}

#[test]
fn selecting_another_unit_moves_the_selection() {
    let mut world = seeded();
    let infantry = tile(&world, 1, 1);
    let cavalry = tile(&world, 3, 1);
    InputSystem::select_tile(&mut world, infantry, 0);
    InputSystem::select_tile(&mut world, cavalry, 0);
    assert_eq!(game(&world).selected_entity, Some(cavalry));
    assert_eq!(marked::<Selected>(&world), vec![(3, 1)]);
    assert_eq!(
        marked::<InMovementRange>(&world),
        vec![(0, 4), (1, 3), (1, 4), (2, 2), (2, 3), (3, 2), (4, 0), (4, 1), (5, 0)]
    );
}

#[test]
fn deselect_clears_selection_and_markers() {
    let mut world = seeded();
    let cavalry = tile(&world, 3, 1);
    InputSystem::select_tile(&mut world, cavalry, 0);
    world.add_component(tile(&world, 7, 7), InAttackRange);
    InputSystem::deselect_current(&mut world);
    assert_eq!(game(&world).selected_entity, None);
    assert!(world.query::<Selected>().is_empty());
    assert!(world.query::<InMovementRange>().is_empty());
    assert!(world.query::<InAttackRange>().is_empty());
    assert_eq!(world.query::<Team>().len(), 6);
}

#[test]
fn deselect_without_a_game_state_does_nothing() {
    let mut world = World::new();
    let a = world.create_entity();
    world.add_component(a, Selected);
    world.add_component(a, InMovementRange);
    InputSystem::deselect_current(&mut world);
    assert!(world.get_component::<Selected>(a).is_some());
    assert!(world.get_component::<InMovementRange>(a).is_some());
}

#[test]
fn clear_markers_empties_one_table() {
    let mut world = World::new();
    for _ in 0..4 {
        world.create_entity();
    }
    world.add_component(0, Hovering);
    world.add_component(2, Hovering);
    world.add_component(3, Hovering);
    world.add_component(2, Selected);
    InputSystem::clear_markers::<Hovering>(&mut world);
    assert!(world.query::<Hovering>().is_empty());
    assert_eq!(world.query::<Selected>().len(), 1);
    InputSystem::clear_markers::<InAttackRange>(&mut world);
    assert!(world.query::<InAttackRange>().is_empty());
}

#[test]
fn two_moves_over_plain_spend_an_infantry_and_deselect_it() {
    let mut world = field(6, 6, TerrainType::Plain);
    HexMapFactory::add_player_unit(&mut world, HexCoord::new(2, 2), UnitType::Infantry);
    let start = tile(&world, 2, 2);
    let first = tile(&world, 3, 2);
    let second = tile(&world, 4, 2);
    InputSystem::select_tile(&mut world, start, 0);
    assert_eq!(game(&world).selected_entity, Some(start));
    assert_eq!(world.query::<InMovementRange>().len(), 18);

    InputSystem::move_unit(&mut world, start, first);
    let state = world.get_component::<UnitState>(first).unwrap();
    assert_eq!((state.health, state.movement_left, state.has_acted), (10, 1, false));
    assert_eq!(world.get_component::<UnitStats>(first).unwrap().unit_type, UnitType::Infantry);
    assert_eq!(world.get_component::<Team>(first).unwrap().team_id, 0);
    assert_eq!(game(&world).selected_entity, Some(first));
    assert_eq!(marked::<Selected>(&world), vec![(3, 2)]);
    assert_eq!(world.query::<InMovementRange>().len(), 6);
    assert!(world.get_component::<InMovementRange>(second).is_some());

    InputSystem::move_unit(&mut world, first, second);
    let state = world.get_component::<UnitState>(second).unwrap();
    assert_eq!(state.movement_left, 0);
    assert_eq!(state.health, 10);
    assert_eq!(game(&world).selected_entity, None);
    assert!(world.query::<Selected>().is_empty());
    assert!(world.query::<InMovementRange>().is_empty());
    assert!(world.query::<InAttackRange>().is_empty());
}

#[test]
fn a_move_leaves_the_components_of_the_source() {
    let mut world = field(4, 4, TerrainType::Plain);
    HexMapFactory::add_player_unit(&mut world, HexCoord::new(1, 1), UnitType::Cavalry);
    let start = tile(&world, 1, 1);
    let goal = tile(&world, 2, 1);
    InputSystem::select_tile(&mut world, start, 0);
    InputSystem::move_unit(&mut world, start, goal);
    assert_eq!(world.get_component::<UnitState>(goal).unwrap().movement_left, 3);
    assert_eq!(world.get_component::<UnitState>(start).unwrap().movement_left, 3);
    assert!(world.get_component::<UnitStats>(start).is_some());
    assert!(world.get_component::<Team>(start).is_some());
}

#[test]
fn a_move_pays_the_terrain_of_the_goal() {
    let mut world = seeded();
    let cavalry = tile(&world, 3, 1);
    let forest = tile(&world, 4, 1);
    InputSystem::select_tile(&mut world, cavalry, 0);
    InputSystem::move_unit(&mut world, cavalry, forest);
    assert_eq!(world.get_component::<UnitState>(forest).unwrap().movement_left, 2);
    assert_eq!(game(&world).selected_entity, Some(forest));
}

#[test]
fn a_move_outside_the_marked_range_is_ignored() {
    let mut world = seeded();
    let infantry = tile(&world, 1, 1);
    let far = tile(&world, 4, 4);
    InputSystem::select_tile(&mut world, infantry, 0);
    InputSystem::move_unit(&mut world, infantry, far);
    assert!(world.get_component::<UnitState>(far).is_none());
    assert_eq!(world.get_component::<UnitState>(infantry).unwrap().movement_left, 2);
    assert_eq!(game(&world).selected_entity, Some(infantry));
    assert_eq!(marked::<InMovementRange>(&world), vec![(0, 1), (1, 0)]);
}

#[test]
fn a_move_that_costs_too_much_is_ignored() {
    let mut world = seeded();
    let infantry = tile(&world, 1, 1);
    let water = tile(&world, 2, 1);
    world.add_component(water, InMovementRange);
    InputSystem::move_unit(&mut world, infantry, water);
    assert!(world.get_component::<UnitState>(water).is_none());
    assert_eq!(world.get_component::<UnitState>(infantry).unwrap().movement_left, 2);
    assert!(world.get_component::<InMovementRange>(water).is_some());
}

#[test]
fn an_attack_wounds_and_ends_the_attackers_turn() {
    let mut world = field(4, 4, TerrainType::Plain);
    HexMapFactory::add_player_unit(&mut world, HexCoord::new(1, 1), UnitType::Infantry);
    HexMapFactory::add_enemy_unit(&mut world, HexCoord::new(2, 1), UnitType::Cavalry);
    HexMapFactory::add_enemy_unit(&mut world, HexCoord::new(3, 3), UnitType::Archer);
    let attacker = tile(&world, 1, 1);
    let defender = tile(&world, 2, 1);
    InputSystem::select_tile(&mut world, attacker, 0);
    assert_eq!(marked::<InAttackRange>(&world), vec![(2, 1)]);
    InputSystem::attack_unit(&mut world, attacker, defender);
    let wounded = world.get_component::<UnitState>(defender).unwrap();
    assert_eq!((wounded.health, wounded.movement_left, wounded.has_acted), (9, 4, false));
    let tired = world.get_component::<UnitState>(attacker).unwrap();
    assert_eq!((tired.health, tired.movement_left, tired.has_acted), (10, 0, true));
    let state = game(&world);
    assert_eq!(state.selected_entity, None);
    assert!(!state.game_over);
    assert!(world.query::<Selected>().is_empty());
    assert!(world.query::<InAttackRange>().is_empty());
    assert!(world.query::<InMovementRange>().is_empty());
}

#[test]
fn destroying_the_last_enemy_ends_the_game_for_the_player() {
    let mut world = field(4, 4, TerrainType::Plain);
    HexMapFactory::add_player_unit(&mut world, HexCoord::new(1, 1), UnitType::Cavalry);
    HexMapFactory::add_enemy_unit(&mut world, HexCoord::new(2, 1), UnitType::Infantry);
    HexMapFactory::add_enemy_unit(&mut world, HexCoord::new(3, 3), UnitType::Archer);
    let attacker = tile(&world, 1, 1);
    let defender = tile(&world, 2, 1);
    let other = tile(&world, 3, 3);
    world.get_component_mut::<UnitState>(other).unwrap().health = 0;
    world.get_component_mut::<UnitState>(defender).unwrap().health = 4;
    assert_eq!(HexMapFactory::check_game_over(&world), (false, false));
    InputSystem::select_tile(&mut world, attacker, 0);
    InputSystem::attack_unit(&mut world, attacker, defender);
    assert_eq!(world.get_component::<UnitState>(defender).unwrap().health, 0);
    assert_eq!(HexMapFactory::check_game_over(&world), (true, true));
    let state = game(&world);
    assert!(state.game_over);
    assert!(state.player_won);
    assert_eq!(state.selected_entity, None);
}

#[test]
fn destroying_one_of_two_enemies_does_not_end_the_game() {
    let mut world = field(4, 4, TerrainType::Plain);
    HexMapFactory::add_player_unit(&mut world, HexCoord::new(1, 1), UnitType::Cavalry);
    HexMapFactory::add_enemy_unit(&mut world, HexCoord::new(2, 1), UnitType::Infantry);
    HexMapFactory::add_enemy_unit(&mut world, HexCoord::new(3, 3), UnitType::Archer);
    let attacker = tile(&world, 1, 1);
    let defender = tile(&world, 2, 1);
    world.get_component_mut::<UnitState>(defender).unwrap().health = 2;
    InputSystem::select_tile(&mut world, attacker, 0);
    InputSystem::attack_unit(&mut world, attacker, defender);
    assert_eq!(world.get_component::<UnitState>(defender).unwrap().health, -2);
    assert_eq!(HexMapFactory::check_game_over(&world), (false, false));
    assert!(!game(&world).game_over);
}

#[test]
fn the_enemy_wins_when_it_destroys_the_last_player_unit() {
    let mut world = field(4, 4, TerrainType::Plain);
    HexMapFactory::add_player_unit(&mut world, HexCoord::new(1, 1), UnitType::Archer);
    HexMapFactory::add_enemy_unit(&mut world, HexCoord::new(2, 1), UnitType::Cavalry);
    let g = HexMapFactory::get_game_state_entity(&world).unwrap();
    world.get_component_mut::<GameState>(g).unwrap().current_turn = 1;
    let attacker = tile(&world, 2, 1);
    let defender = tile(&world, 1, 1);
    world.get_component_mut::<UnitState>(defender).unwrap().health = 5;
    InputSystem::select_tile(&mut world, attacker, 1);
    assert_eq!(marked::<InAttackRange>(&world), vec![(1, 1)]);
    InputSystem::attack_unit(&mut world, attacker, defender);
    assert_eq!(world.get_component::<UnitState>(defender).unwrap().health, 0);
    let state = game(&world);
    assert!(state.game_over);
    assert!(!state.player_won);
}

#[test]
fn an_attack_outside_the_marked_range_is_ignored() {
    let mut world = seeded();
    let attacker = tile(&world, 1, 1);
    let defender = tile(&world, 6, 6);
    InputSystem::select_tile(&mut world, attacker, 0);
    InputSystem::attack_unit(&mut world, attacker, defender);
    assert_eq!(world.get_component::<UnitState>(defender).unwrap().health, 10);
    let state = world.get_component::<UnitState>(attacker).unwrap();
    assert_eq!((state.movement_left, state.has_acted), (2, false));
    assert_eq!(game(&world).selected_entity, Some(attacker));
}

#[test]
fn end_turn_passes_the_turn_and_rests_the_side_to_move() {
    let mut world = seeded();
    let players: Vec<Entity> =
        world.query::<Team>().into_iter().filter(|(_, t)| t.team_id == 0).map(|(e, _)| e).collect();
    let enemies: Vec<Entity> =
        world.query::<Team>().into_iter().filter(|(_, t)| t.team_id == 1).map(|(e, _)| e).collect();
    for e in players.iter().chain(enemies.iter()) {
        let state = world.get_component_mut::<UnitState>(*e).unwrap();
        state.movement_left = 0;
        state.has_acted = true;
        state.health = 3;
    }
    InputSystem::select_tile(&mut world, players[0], 0);
    InputSystem::end_turn(&mut world);
    let state = game(&world);
    assert_eq!((state.current_turn, state.turn_number, state.selected_entity), (1, 2, None));
    for e in enemies.iter() {
        let unit = world.get_component::<UnitState>(*e).unwrap();
        let stats = world.get_component::<UnitStats>(*e).unwrap();
        assert_eq!((unit.health, unit.movement_left, unit.has_acted), (3, stats.movement, false));
    }
    for e in players.iter() {
        let unit = world.get_component::<UnitState>(*e).unwrap();
        assert_eq!((unit.health, unit.movement_left, unit.has_acted), (3, 0, true));
    }
    InputSystem::end_turn(&mut world);
    let state = game(&world);
    assert_eq!((state.current_turn, state.turn_number), (0, 3));
    for e in players.iter() {
        let unit = world.get_component::<UnitState>(*e).unwrap();
        let stats = world.get_component::<UnitStats>(*e).unwrap();
        assert_eq!((unit.movement_left, unit.has_acted), (stats.movement, false));
    }
}

#[test]
fn end_turn_gives_up_the_selection() {
    let mut world = seeded();
    let cavalry = tile(&world, 3, 1);
    InputSystem::select_tile(&mut world, cavalry, 0);
    InputSystem::end_turn(&mut world);
    assert_eq!(game(&world).selected_entity, None);
    assert!(world.query::<Selected>().is_empty());
    assert!(world.query::<InMovementRange>().is_empty());
}

#[test]
fn end_turn_without_a_game_state_does_nothing() {
    let mut world = World::new();
    let a = world.create_entity();
    world.add_component(a, Team { team_id: 1 });
    world.add_component(a, UnitState { health: 1, movement_left: 0, has_acted: true });
    world.add_component(a, HexMapFactory::unit_stats(UnitType::Infantry));
    InputSystem::end_turn(&mut world);
    let state = world.get_component::<UnitState>(a).unwrap();
    assert_eq!((state.movement_left, state.has_acted), (0, true));
}

#[test]
fn hovering_follows_the_pointer_and_leaves_the_selection() {
    let mut world = seeded();
    InputSystem::update(&mut world, Some(HexCoord::new(1, 1)), true);
    let selected = game(&world).selected_entity;
    assert_eq!(selected, Some(tile(&world, 1, 1)));
    InputSystem::update(&mut world, Some(HexCoord::new(5, 5)), false);
    assert_eq!(marked::<Hovering>(&world), vec![(5, 5)]);
    assert_eq!(game(&world).hover_entity, Some(tile(&world, 5, 5)));
    assert_eq!(game(&world).selected_entity, selected);
    InputSystem::update(&mut world, Some(HexCoord::new(0, 7)), false);
    assert_eq!(marked::<Hovering>(&world), vec![(0, 7)]);
    assert_eq!(game(&world).hover_entity, Some(tile(&world, 0, 7)));
    InputSystem::update(&mut world, Some(HexCoord::new(20, 20)), true);
    assert!(world.query::<Hovering>().is_empty());
    assert_eq!(game(&world).hover_entity, Some(tile(&world, 0, 7)));
    assert_eq!(game(&world).selected_entity, selected);
    InputSystem::update(&mut world, None, true);
    assert!(world.query::<Hovering>().is_empty());
    assert_eq!(game(&world).selected_entity, selected);
}

#[test]
fn a_click_on_the_selected_tile_gives_up_the_selection() {
    let mut world = seeded();
    InputSystem::update(&mut world, Some(HexCoord::new(3, 1)), true);
    assert_eq!(game(&world).selected_entity, Some(tile(&world, 3, 1)));
    assert_eq!(world.query::<InMovementRange>().len(), 9);
    InputSystem::update(&mut world, Some(HexCoord::new(3, 1)), true);
    assert_eq!(game(&world).selected_entity, None);
    assert!(world.query::<Selected>().is_empty());
    assert!(world.query::<InMovementRange>().is_empty());
    assert_eq!(marked::<Hovering>(&world), vec![(3, 1)]);
}

#[test]
fn clicks_select_move_and_attack() {
    let mut world = field(5, 5, TerrainType::Plain);
    HexMapFactory::add_player_unit(&mut world, HexCoord::new(0, 2), UnitType::Infantry);
    HexMapFactory::add_enemy_unit(&mut world, HexCoord::new(2, 2), UnitType::Archer);
    InputSystem::update(&mut world, Some(HexCoord::new(2, 2)), true);
    assert_eq!(game(&world).selected_entity, None);
    InputSystem::update(&mut world, Some(HexCoord::new(0, 2)), true);
    assert_eq!(game(&world).selected_entity, Some(tile(&world, 0, 2)));
    assert!(marked::<InAttackRange>(&world).is_empty());
    InputSystem::update(&mut world, Some(HexCoord::new(1, 2)), true);
    assert_eq!(game(&world).selected_entity, Some(tile(&world, 1, 2)));
    assert_eq!(world.get_component::<UnitState>(tile(&world, 1, 2)).unwrap().movement_left, 1);
    assert_eq!(marked::<InAttackRange>(&world), vec![(2, 2)]);
    InputSystem::update(&mut world, Some(HexCoord::new(2, 2)), true);
    let wounded = world.get_component::<UnitState>(tile(&world, 2, 2)).unwrap();
    assert_eq!(wounded.health, 8 - 3);
    let tired = world.get_component::<UnitState>(tile(&world, 1, 2)).unwrap();
    assert_eq!((tired.movement_left, tired.has_acted), (0, true));
    assert_eq!(game(&world).selected_entity, None);
    InputSystem::update(&mut world, Some(HexCoord::new(1, 2)), true);
    assert_eq!(game(&world).selected_entity, None);
}

#[test]
fn update_needs_both_singletons() {
    let mut world = World::new();
    let a = world.create_entity();
    world.add_component(a, Hovering);
    InputSystem::update(&mut world, Some(HexCoord::new(0, 0)), true);
    assert!(world.get_component::<Hovering>(a).is_some());
    world.add_component(
        a,
        GameState {
            selected_entity: None,
            hover_entity: None,
            current_turn: 0,
            turn_number: 1,
            game_over: false,
            player_won: false,
        },
    );
    InputSystem::update(&mut world, Some(HexCoord::new(0, 0)), true);
    assert!(world.get_component::<Hovering>(a).is_some());
    world.add_component(
        a,
        MapSettings { map_width: 0, map_height: 0, hex_size: 0, origin_x: 0, origin_y: 0 },
    );
    InputSystem::update(&mut world, Some(HexCoord::new(0, 0)), true);
    assert!(world.get_component::<Hovering>(a).is_none());
}

#[test]
fn calculate_ranges_needs_position_and_state() {
    let mut world = seeded();
    let empty = tile(&world, 0, 0);
    InputSystem::calculate_ranges(&mut world, empty);
    assert!(world.query::<InMovementRange>().is_empty());
    assert!(world.query::<InAttackRange>().is_empty());
    let infantry = tile(&world, 1, 1);
    world.remove_component::<UnitState>(infantry);
    InputSystem::calculate_ranges(&mut world, infantry);
    assert!(world.query::<InMovementRange>().is_empty());
    let archer = tile(&world, 2, 2);
    world.remove_component::<Position>(archer);
    InputSystem::calculate_ranges(&mut world, archer);
    assert!(world.query::<InMovementRange>().is_empty());
    let cavalry = tile(&world, 3, 1);
    InputSystem::calculate_ranges(&mut world, cavalry);
    assert_eq!(world.query::<InMovementRange>().len(), 9);
    assert!(world.query::<Selected>().is_empty());
}

#[test]
fn the_numbers_of_an_attack_fit_or_not() {
    let mut world = field(3, 1, TerrainType::Plain);
    HexMapFactory::add_player_unit(&mut world, HexCoord::new(0, 0), UnitType::Infantry);
    HexMapFactory::add_enemy_unit(&mut world, HexCoord::new(1, 0), UnitType::Infantry);
    let attacker = tile(&world, 0, 0);
    let defender = tile(&world, 1, 0);
    assert!(InputSystem::combat_fits(&world, attacker, defender));
    InputSystem::select_tile(&mut world, attacker, 0);
    assert!(InputSystem::combat_fits(&world, attacker, defender));
    assert!(InputSystem::update_fits(&world, Some(HexCoord::new(1, 0)), true));
    world.get_component_mut::<UnitState>(defender).unwrap().health = i32::MIN + 1;
    assert!(!InputSystem::combat_fits(&world, attacker, defender));
    assert!(!InputSystem::update_fits(&world, Some(HexCoord::new(1, 0)), true));
    assert!(InputSystem::update_fits(&world, Some(HexCoord::new(1, 0)), false));
    assert!(InputSystem::update_fits(&world, Some(HexCoord::new(2, 0)), true));
    assert!(InputSystem::update_fits(&world, None, true));
    world.get_component_mut::<UnitState>(defender).unwrap().health = i32::MIN + 2;
    assert!(InputSystem::combat_fits(&world, attacker, defender));
    world.get_component_mut::<UnitStats>(attacker).unwrap().attack = i32::MAX;
    world.get_component_mut::<UnitStats>(defender).unwrap().defense = -2;
    world.get_component_mut::<UnitState>(defender).unwrap().health = 10;
    assert!(!InputSystem::combat_fits(&world, attacker, defender));
    world.get_component_mut::<UnitStats>(defender).unwrap().defense = 0;
    assert!(InputSystem::combat_fits(&world, attacker, defender));
}

#[test]
fn the_turn_can_pass_while_its_numbers_fit() {
    let mut world = seeded();
    assert!(InputSystem::turn_fits(&world));
    let g = HexMapFactory::get_game_state_entity(&world).unwrap();
    world.get_component_mut::<GameState>(g).unwrap().turn_number = i32::MAX;
    assert!(!InputSystem::turn_fits(&world));
    world.get_component_mut::<GameState>(g).unwrap().turn_number = i32::MAX - 1;
    assert!(InputSystem::turn_fits(&world));
    world.get_component_mut::<GameState>(g).unwrap().current_turn = 2;
    assert!(!InputSystem::turn_fits(&world));
    assert!(InputSystem::turn_fits(&World::new()));
}

fn assert_consistent(world: &World, entities: usize) {
    let state = game(world);
    let selected: Vec<Entity> = world.query::<Selected>().into_iter().map(|(e, _)| e).collect();
    match state.selected_entity {
        Some(e) => assert_eq!(selected, vec![e]),
        None => assert!(selected.is_empty()),
    }
    assert!(world.query::<Hovering>().len() <= 1);
    assert!(state.current_turn <= 1);
    assert_eq!(world.entities().len(), entities);
    assert_eq!(world.query::<Position>().len(), entities - 2);
    assert_eq!(world.query::<Terrain>().len(), entities - 2);
    for (e, unit) in world.query::<UnitState>() {
        let stats = world.get_component::<UnitStats>(e).unwrap();
        assert!(0 <= unit.movement_left && unit.movement_left <= stats.movement);
    }
    for (_, team) in world.query::<Team>() {
        assert!(team.team_id <= 1);
    }
    if state.selected_entity.is_none() {
        assert!(world.query::<InMovementRange>().is_empty());
        assert!(world.query::<InAttackRange>().is_empty());
    }
}

#[test]
fn play_keeps_the_game_consistent() {
    let mut world = seeded();
    let entities: usize = world.entities().len();
    let mut seed: u64 = 0x2545_F491_4F6C_DD1D;
    assert_consistent(&world, entities);
    for _ in 0..1500 {
        seed = seed.wrapping_mul(6364136223846793005).wrapping_add(1442695040888963407);
        let q = ((seed >> 33) % 10) as i32 - 1;
        let r = ((seed >> 40) % 10) as i32 - 1;
        let action = (seed >> 50) % 16;
        if action == 0 {
            assert!(InputSystem::turn_fits(&world));
            InputSystem::end_turn(&mut world);
        } else {
            let hover = if action == 1 { None } else { Some(HexCoord::new(q, r)) };
            let clicked = action % 2 == 0;
            assert!(InputSystem::update_fits(&world, hover, clicked));
            InputSystem::update(&mut world, hover, clicked);
            if let Some(coord) = hover {
                let under = HexMapFactory::get_hex_entity_map(&world).get(&coord);
                let marked: Vec<Entity> =
                    world.query::<Hovering>().into_iter().map(|(e, _)| e).collect();
                match under {
                    Some(e) => assert_eq!(marked, vec![e]),
                    None => assert!(marked.is_empty()),
                }
            }
        }
        assert_consistent(&world, entities);
    }
    assert!(game(&world).turn_number > 1);
}
