//! Entity lifecycle, storage, archetype bookkeeping, and the
//! introspection counters, driven through the registry.

use bort::{
    alive_entities, alive_entity_count, heap_count, slot_count, spawned_entity_count,
    try_get_entity, AccessError, Runtime, Storage, World, BLOCK_SLOTS,
};

const MAIN: u64 = 7;
const POSITION: u64 = 1;
const VELOCITY: u64 = 2;

#[test]
fn scenario_two_components_share_archetype() {
    let rt = Runtime::new(MAIN);
    let token = rt.acquire(MAIN);
    let mut w = World::new();
    let mut positions: Storage<i64> = Storage::new(POSITION);
    let mut velocities: Storage<i64> = Storage::new(VELOCITY);

    let a = w.create(&token);
    assert_eq!(positions.insert(&mut w, &token, a, 1), None);
    assert_eq!(velocities.insert(&mut w, &token, a, 2), None);
    assert_eq!(w.archetype(a), vec![POSITION, VELOCITY]);

    let b = w.create(&token);
    velocities.insert(&mut w, &token, b, 20);
    positions.insert(&mut w, &token, b, 10);
    assert_eq!(w.node_of(a), w.node_of(b));
    assert!(w.same_archetype(a, b));

    velocities.remove(&mut w, &token, b);
    let c = w.create(&token);
    positions.insert(&mut w, &token, c, 100);
    assert_eq!(w.node_of(b), w.node_of(c));
    assert!(!w.same_archetype(a, b));

    let a_slot = positions.slot_index(a).unwrap();
    let comps = w.destroy(&token, a);
    assert_eq!(comps, vec![POSITION, VELOCITY]);
    positions.remove_untracked(&token, a);
    velocities.remove_untracked(&token, a);
    assert_eq!(try_get_entity(&w, &positions, &token, a), Err(AccessError::NotAlive));

    let d = w.create(&token);
    positions.insert(&mut w, &token, d, 555);
    assert_eq!(positions.slot_index(d).unwrap(), a_slot);
    assert_eq!(try_get_entity(&w, &positions, &token, d), Ok(&555));
}

#[test]
fn destroy_makes_every_access_fail() {
    let rt = Runtime::new(MAIN);
    let token = rt.acquire(MAIN);
    let mut w = World::new();
    let mut positions: Storage<u32> = Storage::new(POSITION);
    let mut velocities: Storage<u32> = Storage::new(VELOCITY);

    let e = w.create(&token);
    positions.insert(&mut w, &token, e, 11);
    assert!(w.is_alive(e));
    assert_eq!(try_get_entity(&w, &positions, &token, e), Ok(&11));

    let comps = w.destroy(&token, e);
    assert_eq!(comps, vec![POSITION]);
    assert!(!w.is_alive(e));
    assert_eq!(try_get_entity(&w, &positions, &token, e), Err(AccessError::NotAlive));
    assert_eq!(try_get_entity(&w, &velocities, &token, e), Err(AccessError::NotAlive));
}

#[test]
fn missing_component_is_reported_distinctly() {
    let rt = Runtime::new(MAIN);
    let token = rt.acquire(MAIN);
    let mut w = World::new();
    let mut positions: Storage<u32> = Storage::new(POSITION);
    let velocities: Storage<u32> = Storage::new(VELOCITY);

    let e = w.create(&token);
    positions.insert(&mut w, &token, e, 11);
    assert_eq!(try_get_entity(&w, &velocities, &token, e), Err(AccessError::Missing));
    assert_eq!(try_get_entity(&w, &positions, &token, e), Ok(&11));
}

#[test]
fn insert_has_replace_semantics() {
    let rt = Runtime::new(MAIN);
    let token = rt.acquire(MAIN);
    let mut w = World::new();
    let mut positions: Storage<&str> = Storage::new(POSITION);

    let e = w.create(&token);
    assert_eq!(positions.insert(&mut w, &token, e, "first"), None);
    assert_eq!(positions.insert(&mut w, &token, e, "second"), Some("first"));
    assert_eq!(positions.get(&token, e), &"second");
    assert_eq!(w.archetype(e), vec![POSITION]);
}

#[test]
fn remove_returns_the_detached_value() {
    let rt = Runtime::new(MAIN);
    let token = rt.acquire(MAIN);
    let mut w = World::new();
    let mut positions: Storage<i32> = Storage::new(POSITION);

    let e = w.create(&token);
    positions.insert(&mut w, &token, e, -3);
    assert_eq!(positions.remove(&mut w, &token, e), Some(-3));
    assert!(!positions.has(e));
    assert_eq!(positions.remove(&mut w, &token, e), None);
    assert_eq!(w.archetype(e), Vec::<u64>::new());
}

#[test]
fn freed_cell_never_leaks_the_old_value() {
    let rt = Runtime::new(MAIN);
    let token = rt.acquire(MAIN);
    let mut w = World::new();
    let mut positions: Storage<String> = Storage::new(POSITION);

    let e1 = w.create(&token);
    positions.insert(&mut w, &token, e1, String::from("secret"));
    let old_slot = positions.slot_index(e1).unwrap();
    assert_eq!(positions.remove(&mut w, &token, e1), Some(String::from("secret")));

    let e2 = w.create(&token);
    positions.insert(&mut w, &token, e2, String::from("fresh"));
    assert_eq!(positions.slot_index(e2).unwrap(), old_slot);
    assert_eq!(positions.get(&token, e2), &String::from("fresh"));
    assert!(!positions.has(e1));
}

#[test]
fn get_mut_updates_in_place() {
    let rt = Runtime::new(MAIN);
    let token = rt.acquire(MAIN);
    let mut w = World::new();
    let mut positions: Storage<u64> = Storage::new(POSITION);

    let e = w.create(&token);
    positions.insert(&mut w, &token, e, 5);
    *positions.get_mut(&token, e) += 37;
    assert_eq!(positions.get(&token, e), &42);
}

#[test]
fn counters_track_entities_blocks_and_cells() {
    let rt = Runtime::new(MAIN);
    let token = rt.acquire(MAIN);
    let mut w = World::new();
    let mut positions: Storage<u8> = Storage::new(POSITION);
    let mut velocities: Storage<u8> = Storage::new(VELOCITY);

    assert_eq!(alive_entity_count(&w), 0);
    assert_eq!(spawned_entity_count(&w), 0);
    assert_eq!(heap_count(&w), 0);
    assert_eq!(slot_count(&w), 0);

    let a = w.create(&token);
    let b = w.create(&token);
    assert_eq!(alive_entity_count(&w), 2);
    assert_eq!(spawned_entity_count(&w), 2);

    positions.insert(&mut w, &token, a, 1);
    assert_eq!(heap_count(&w), 1);
    assert_eq!(slot_count(&w), BLOCK_SLOTS as u64);
    positions.insert(&mut w, &token, b, 2);
    assert_eq!(heap_count(&w), 1);
    velocities.insert(&mut w, &token, a, 3);
    assert_eq!(heap_count(&w), 2);
    assert_eq!(slot_count(&w), 2 * BLOCK_SLOTS as u64);

    w.destroy(&token, a);
    assert_eq!(alive_entity_count(&w), 1);
    assert_eq!(spawned_entity_count(&w), 2);
}

#[test]
fn alive_entities_lists_each_once() {
    let rt = Runtime::new(MAIN);
    let token = rt.acquire(MAIN);
    let mut w = World::new();
    let a = w.create(&token);
    let b = w.create(&token);
    let c = w.create(&token);
    w.destroy(&token, b);
    let mut ids: Vec<u64> = alive_entities(&w).iter().map(|e| e.id()).collect();
    ids.sort();
    assert_eq!(ids, vec![a.id(), c.id()]);
}

#[test]
fn owned_entity_despawn_is_the_destruction_point() {
    let rt = Runtime::new(MAIN);
    let token = rt.acquire(MAIN);
    let mut w = World::new();
    let mut positions: Storage<u8> = Storage::new(POSITION);

    let owned = bort::OwnedEntity::spawn(&mut w, &token);
    let e = owned.entity();
    positions.insert(&mut w, &token, e, 9);
    assert!(w.is_alive(e));

    let comps = owned.despawn(&mut w, &token);
    assert_eq!(comps, vec![POSITION]);
    positions.remove_untracked(&token, e);
    assert!(!w.is_alive(e));
}

#[test]
fn unmanage_gives_up_the_handle_without_destroying() {
    let rt = Runtime::new(MAIN);
    let token = rt.acquire(MAIN);
    let mut w = World::new();

    let owned = bort::OwnedEntity::spawn(&mut w, &token);
    let e = owned.unmanage();
    assert!(w.is_alive(e));
    w.destroy(&token, e);
    assert!(!w.is_alive(e));
}

#[test]
fn entity_ids_are_never_reused() {
    let rt = Runtime::new(MAIN);
    let token = rt.acquire(MAIN);
    let mut w = World::new();
    let a = w.create(&token);
    w.destroy(&token, a);
    let b = w.create(&token);
    assert_ne!(a.id(), b.id());
    assert!(!w.is_alive(a));
    assert!(w.is_alive(b));
}
