use openvictoria::c::{GameState, Hovering, Position, Selected, Team, UnitState};
use openvictoria::c::HexCoord;
use openvictoria::e::{ComponentVec, Entity, World};

#[test]
fn new_world_is_empty() {
    let world = World::new();
    assert_eq!(world.entities().len(), 0);
    assert_eq!(world.len(), 0);
    assert!(world.query::<Team>().is_empty());
    assert!(world.get_component::<Team>(0).is_none());
}

#[test]
fn entities_are_numbered_from_zero() {
    let mut world = World::new();
    let a: Entity = world.create_entity();
    let b: Entity = world.create_entity();
    let c: Entity = world.create_entity();
    assert_eq!((a, b, c), (0, 1, 2));
    assert_eq!(world.entities(), &vec![0, 1, 2]);
}

#[test]
fn create_then_add_then_get() {
    let mut world = World::new();
    let a: Entity = world.create_entity();
    let b: Entity = world.create_entity();
    world.add_component(b, Team { team_id: 1 });
    assert_eq!(world.get_component::<Team>(b).map(|t| t.team_id), Some(1));
    assert!(world.get_component::<Team>(a).is_none());
    assert!(world.get_component::<Selected>(b).is_none());
}

#[test]
fn add_overwrites_the_same_kind() {
    let mut world = World::new();
    let a: Entity = world.create_entity();
    world.add_component(a, Team { team_id: 0 });
    world.add_component(a, Team { team_id: 1 });
    assert_eq!(world.get_component::<Team>(a).map(|t| t.team_id), Some(1));
    assert_eq!(world.query::<Team>().len(), 1);
}

#[test]
fn get_after_remove_is_none() {
    let mut world = World::new();
    let a: Entity = world.create_entity();
    let b: Entity = world.create_entity();
    world.add_component(a, Team { team_id: 0 });
    world.add_component(b, Team { team_id: 1 });
    world.add_component(a, Selected);
    world.remove_component::<Team>(a);
    assert!(world.get_component::<Team>(a).is_none());
    assert_eq!(world.get_component::<Team>(b).map(|t| t.team_id), Some(1));
    assert!(world.get_component::<Selected>(a).is_some());
}

#[test]
fn remove_of_a_kind_never_added_changes_nothing() {
    let mut world = World::new();
    let a: Entity = world.create_entity();
    world.add_component(a, Team { team_id: 0 });
    world.remove_component::<Selected>(a);
    assert!(world.get_component::<Selected>(a).is_none());
    assert_eq!(world.get_component::<Team>(a).map(|t| t.team_id), Some(0));
}

#[test]
fn first_component_of_a_kind_backfills_empty_slots() {
    let mut world = World::new();
    for _ in 0..5 {
        world.create_entity();
    }
    world.add_component(3, Team { team_id: 1 });
    for e in 0..5usize {
        let found = world.get_component::<Team>(e).map(|t| t.team_id);
        if e == 3 {
            assert_eq!(found, Some(1));
        } else {
            assert_eq!(found, None);
        }
    }
    let holders: Vec<Entity> = world.query::<Team>().into_iter().map(|(e, _)| e).collect();
    assert_eq!(holders, vec![3]);
}

#[test]
fn tables_grow_with_new_entities() {
    let mut world = World::new();
    let a: Entity = world.create_entity();
    world.add_component(a, Team { team_id: 0 });
    let b: Entity = world.create_entity();
    assert!(world.get_component::<Team>(b).is_none());
    world.add_component(b, Team { team_id: 1 });
    assert_eq!(world.get_component::<Team>(b).map(|t| t.team_id), Some(1));
    assert_eq!(world.get_component::<Team>(a).map(|t| t.team_id), Some(0));
}

#[test]
fn operations_on_unallocated_entities_do_nothing() {
    let mut world = World::new();
    let a: Entity = world.create_entity();
    world.add_component(a, Team { team_id: 0 });
    world.add_component(7, Team { team_id: 1 });
    world.add_component(7, Selected);
    world.remove_component::<Team>(7);
    world.delete_entity(7);
    assert!(world.get_component::<Team>(7).is_none());
    assert!(world.get_component_mut::<Team>(7).is_none());
    assert!(world.get_component::<Selected>(a).is_none());
    assert_eq!(world.entities(), &vec![0]);
    assert_eq!(world.query::<Team>().len(), 1);
    assert_eq!(world.create_entity(), 1);
}

#[test]
fn get_component_mut_changes_in_place() {
    let mut world = World::new();
    let a: Entity = world.create_entity();
    let b: Entity = world.create_entity();
    world.add_component(a, UnitState { health: 5, movement_left: 2, has_acted: false });
    world.add_component(b, UnitState { health: 7, movement_left: 1, has_acted: true });
    if let Some(state) = world.get_component_mut::<UnitState>(a) {
        state.health -= 3;
        state.has_acted = true;
    }
    let state = world.get_component::<UnitState>(a).unwrap();
    assert_eq!((state.health, state.movement_left, state.has_acted), (2, 2, true));
    let other = world.get_component::<UnitState>(b).unwrap();
    assert_eq!((other.health, other.movement_left, other.has_acted), (7, 1, true));
    assert!(world.get_component_mut::<Team>(a).is_none());
}

#[test]
fn query_lists_holders_in_ascending_order() {
    let mut world = World::new();
    for _ in 0..6 {
        world.create_entity();
    }
    world.add_component(4, Team { team_id: 1 });
    world.add_component(1, Team { team_id: 0 });
    world.add_component(5, Team { team_id: 1 });
    world.add_component(2, Selected);
    let found: Vec<(Entity, u8)> =
        world.query::<Team>().into_iter().map(|(e, t)| (e, t.team_id)).collect();
    assert_eq!(found, vec![(1, 0), (4, 1), (5, 1)]);
    assert!(world.query::<Hovering>().is_empty());
}

#[test]
fn delete_clears_every_table_and_keeps_their_length() {
    let mut world = World::new();
    let a: Entity = world.create_entity();
    let b: Entity = world.create_entity();
    world.add_component(a, Team { team_id: 0 });
    world.add_component(a, Selected);
    world.add_component(a, Position { coord: HexCoord::new(1, 2) });
    world.add_component(b, Team { team_id: 1 });
    world.delete_entity(a);
    assert!(world.get_component::<Team>(a).is_none());
    assert!(world.get_component::<Selected>(a).is_none());
    assert!(world.get_component::<Position>(a).is_none());
    assert_eq!(world.get_component::<Team>(b).map(|t| t.team_id), Some(1));
    assert_eq!(world.entities().len(), 2);
    assert_eq!(world.entities(), &vec![0, 1]);
}

#[test]
fn deleted_identifiers_are_used_again_last_first() {
    let mut world = World::new();
    for _ in 0..4 {
        world.create_entity();
    }
    world.delete_entity(1);
    world.delete_entity(3);
    assert_eq!(world.entities(), &vec![0, 0, 2, 0]);
    assert_eq!(world.create_entity(), 3);
    assert_eq!(world.create_entity(), 1);
    assert_eq!(world.entities(), &vec![0, 1, 2, 3]);
    assert_eq!(world.create_entity(), 4);
    assert_eq!(world.entities().len(), 5);
}

#[test]
fn deleting_a_freed_entity_does_nothing() {
    let mut world = World::new();
    world.create_entity();
    world.create_entity();
    world.delete_entity(0);
    world.delete_entity(0);
    let a: Entity = world.create_entity();
    let b: Entity = world.create_entity();
    assert_eq!((a, b), (0, 2));
    assert_eq!(world.entities(), &vec![0, 1, 2]);
}

#[test]
fn adding_to_a_freed_entity_does_nothing() {
    let mut world = World::new();
    let e: Entity = world.create_entity();
    let other: Entity = world.create_entity();
    world.add_component(other, Selected);
    world.delete_entity(e);
    world.add_component(e, Team { team_id: 1 });
    world.add_component(e, Selected);
    assert!(world.get_component::<Team>(e).is_none());
    assert!(world.get_component_mut::<Team>(e).is_none());
    assert!(world.query::<Team>().is_empty());
    assert_eq!(world.query::<Selected>().len(), 1);
    world.remove_component::<Selected>(e);
    assert_eq!(world.query::<Selected>().len(), 1);
}

#[test]
fn a_reused_entity_comes_back_without_components() {
    let mut world = World::new();
    let e: Entity = world.create_entity();
    world.add_component(e, Team { team_id: 0 });
    world.add_component(e, Selected);
    world.delete_entity(e);
    world.add_component(e, Team { team_id: 1 });
    let again: Entity = world.create_entity();
    assert_eq!(again, e);
    assert!(world.get_component::<Team>(again).is_none());
    assert!(world.get_component::<Selected>(again).is_none());
    world.add_component(again, Team { team_id: 1 });
    assert_eq!(world.get_component::<Team>(again).map(|t| t.team_id), Some(1));
}

#[test]
fn an_entity_is_valid_from_creation_to_deletion() {
    let mut world = World::new();
    assert!(!world.is_valid(0));
    let a: Entity = world.create_entity();
    let b: Entity = world.create_entity();
    assert!(world.is_valid(a));
    assert!(world.is_valid(b));
    assert!(!world.is_valid(2));
    world.delete_entity(a);
    assert!(!world.is_valid(a));
    assert!(world.is_valid(b));
    assert_eq!(world.create_entity(), a);
    assert!(world.is_valid(a));
}

#[test]
fn store_invariants_hold_over_a_mixed_sequence() {
    let mut world = World::new();
    let mut allocated: usize = 0;
    for round in 0..20usize {
        let e: Entity = world.create_entity();
        if e == allocated {
            allocated += 1;
        }
        world.add_component(e, Team { team_id: (round % 2) as u8 });
        if round % 3 == 0 {
            world.add_component(e, Selected);
        }
        if round % 4 == 1 {
            world.delete_entity(e / 2);
        }
        if round % 5 == 2 {
            world.remove_component::<Team>(e);
            assert!(world.get_component::<Team>(e).is_none());
        }
        assert_eq!(world.entities().len(), allocated);
        assert_eq!(world.len(), allocated);
        for (holder, _) in world.query::<Team>() {
            assert!(holder < allocated);
        }
        assert!(world.get_component::<Team>(allocated).is_none());
        assert!(world.get_component::<Selected>(allocated).is_none());
    }
}

#[test]
fn singleton_components_are_found_by_query() {
    let mut world = World::new();
    world.create_entity();
    let g: Entity = world.create_entity();
    world.add_component(
        g,
        GameState {
            selected_entity: None,
            hover_entity: Some(4),
            current_turn: 1,
            turn_number: 9,
            game_over: false,
            player_won: false,
        },
    );
    let found = world.query::<GameState>();
    assert_eq!(found.len(), 1);
    assert_eq!(found[0].0, g);
    assert_eq!(found[0].1.turn_number, 9);
    assert_eq!(found[0].1.hover_entity, Some(4));
}

#[test]
fn component_tables_push_and_empty_slots() {
    let mut table: Vec<Option<u8>> = vec![Some(1), Some(2)];
    ComponentVec::push_none(&mut table);
    assert_eq!(table, vec![Some(1), Some(2), None]);
    ComponentVec::remove(&mut table, 0);
    assert_eq!(table, vec![None, Some(2), None]);
}
