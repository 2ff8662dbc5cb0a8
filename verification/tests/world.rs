use crayon::ecs::{Arena, BitSet, ComponentArena, Entity, StorageKind, TypeKey, World};

const POSITION: TypeKey = 10;
const VELOCITY: TypeKey = 20;
const TAG: TypeKey = 30;

fn mask_of(indices: &[usize]) -> BitSet {
    let mut mask = BitSet::new();
    for i in indices {
        mask.insert(*i);
    }
    mask
}

fn entities_of(world: &World<i32>, mask: &BitSet) -> Vec<Entity> {
    let mut view = world.view(mask);
    let mut found = Vec::new();
    while let Some(e) = view.next() {
        found.push(e);
    }
    assert_eq!(view.len(), 0);
    assert_eq!(view.next(), None);
    assert_eq!(view.as_slice(), &found[..]);
    found
}

#[test]
fn registration_order_gives_the_indices() {
    let mut world: World<i32> = World::new();
    assert_eq!(world.len(), 0);
    assert_eq!(world.try_index(POSITION), None);
    assert_eq!(world.register(POSITION, StorageKind::Dense), 0);
    assert_eq!(world.register(TAG, StorageKind::Sparse), 1);
    assert_eq!(world.register(VELOCITY, StorageKind::Dense), 2);
    assert_eq!(world.len(), 3);
    assert_eq!(world.index(POSITION), 0);
    assert_eq!(world.index(TAG), 1);
    assert_eq!(world.index(VELOCITY), 2);
    assert_eq!(world.try_index(TAG), Some(1));
    assert_eq!(world.try_index(99), None);
}

#[test]
fn registering_again_keeps_index_and_arena() {
    let mut world: World<i32> = World::new();
    world.register(POSITION, StorageKind::Dense);
    world.register(TAG, StorageKind::Sparse);
    let e = world.create().unwrap();
    world.insert(e, POSITION, 5);
    assert_eq!(world.register(POSITION, StorageKind::Dense), 0);
    assert_eq!(world.len(), 2);
    assert_eq!(world.get(e, POSITION), Some(&5));
}

#[test]
fn arenas_have_the_layout_they_were_registered_with() {
    let mut world: World<i32> = World::new();
    world.register(POSITION, StorageKind::Dense);
    world.register(TAG, StorageKind::Sparse);
    assert_eq!(world.arena(POSITION).storage(), StorageKind::Dense);
    assert_eq!(world.arena(TAG).storage(), StorageKind::Sparse);
}

#[test]
fn a_new_entity_has_no_component() {
    let mut world: World<i32> = World::new();
    world.register(POSITION, StorageKind::Dense);
    world.register(TAG, StorageKind::Sparse);
    let e = world.create().unwrap();
    assert!(world.is_alive(e));
    assert_eq!(world.get(e, POSITION), None);
    assert_eq!(world.get(e, TAG), None);
    assert!(!world.has(e, POSITION));
}

#[test]
fn components_round_trip_through_the_world() {
    let mut world: World<i32> = World::new();
    world.register(POSITION, StorageKind::Dense);
    world.register(TAG, StorageKind::Sparse);
    let a = world.create().unwrap();
    let b = world.create().unwrap();
    assert_eq!(world.insert(a, POSITION, 1), None);
    assert_eq!(world.insert(b, TAG, 2), None);
    assert_eq!(world.insert(a, POSITION, 3), Some(1));
    assert_eq!(world.get(a, POSITION), Some(&3));
    assert_eq!(world.get(a, TAG), None);
    assert_eq!(world.get(b, POSITION), None);
    assert_eq!(world.get(b, TAG), Some(&2));
    assert!(world.has(b, TAG));
    assert_eq!(world.remove(a, POSITION), Some(3));
    assert_eq!(world.remove(a, POSITION), None);
    assert_eq!(world.get(a, POSITION), None);
    assert_eq!(world.get(b, TAG), Some(&2));
}

#[test]
fn freeing_an_entity_takes_its_components_out() {
    let mut world: World<i32> = World::new();
    world.register(POSITION, StorageKind::Dense);
    world.register(TAG, StorageKind::Sparse);
    let a = world.create().unwrap();
    let b = world.create().unwrap();
    world.insert(a, POSITION, 1);
    world.insert(a, TAG, 2);
    world.insert(b, POSITION, 3);
    assert!(world.free(a));
    assert!(!world.is_alive(a));
    assert!(!world.free(a));
    assert_eq!(world.get(a, POSITION), None);
    assert!(!world.arena(POSITION).contains(a.index()));
    assert!(!world.arena(TAG).contains(a.index()));
    assert_eq!(world.get(b, POSITION), Some(&3));
}

#[test]
fn a_stale_handle_reaches_nothing() {
    let mut world: World<i32> = World::new();
    world.register(POSITION, StorageKind::Dense);
    let old = world.create().unwrap();
    world.insert(old, POSITION, 1);
    world.free(old);
    let new = world.create().unwrap();
    assert_eq!(new.index(), old.index());
    assert_eq!(world.get(new, POSITION), None);
    assert_eq!(world.insert(old, POSITION, 9), None);
    assert_eq!(world.get(new, POSITION), None);
    assert_eq!(world.insert(new, POSITION, 2), None);
    assert_eq!(world.get(old, POSITION), None);
    assert_eq!(world.remove(old, POSITION), None);
    assert_eq!(world.get(new, POSITION), Some(&2));
}

#[test]
fn arena_access_by_key() {
    let mut world: World<i32> = World::new();
    world.register(POSITION, StorageKind::Dense);
    world.register(TAG, StorageKind::Sparse);
    let e = world.create().unwrap();
    world.insert(e, TAG, 4);
    {
        let arena: &mut Arena<i32> = world.arena_mut(TAG);
        *arena.get_mut(e.index()).unwrap() = 5;
    }
    assert_eq!(world.arena(TAG).get(e.index()), Some(&5));
    assert_eq!(world.arena(POSITION).get(e.index()), None);
    assert_eq!(world.get(e, TAG), Some(&5));
}

#[test]
fn view_finds_the_entities_that_have_every_component() {
    let mut world: World<i32> = World::new();
    let p = world.register(POSITION, StorageKind::Dense);
    let v = world.register(VELOCITY, StorageKind::Dense);
    let t = world.register(TAG, StorageKind::Sparse);
    let a = world.create().unwrap();
    let b = world.create().unwrap();
    let c = world.create().unwrap();
    let d = world.create().unwrap();
    world.insert(a, POSITION, 1);
    world.insert(a, VELOCITY, 1);
    world.insert(b, POSITION, 2);
    world.insert(c, POSITION, 3);
    world.insert(c, VELOCITY, 3);
    world.insert(c, TAG, 3);
    assert_eq!(entities_of(&world, &mask_of(&[p])), vec![a, b, c]);
    assert_eq!(entities_of(&world, &mask_of(&[p, v])), vec![a, c]);
    assert_eq!(entities_of(&world, &mask_of(&[v, t, p])), vec![c]);
    assert_eq!(entities_of(&world, &mask_of(&[t])), vec![c]);
    assert_eq!(entities_of(&world, &mask_of(&[])), vec![a, b, c, d]);
    world.free(a);
    assert_eq!(entities_of(&world, &mask_of(&[p, v])), vec![c]);
    assert_eq!(entities_of(&world, &mask_of(&[])), vec![b, c, d]);
}

#[test]
fn view_of_an_arena_that_does_not_exist_is_empty() {
    let mut world: World<i32> = World::new();
    let p = world.register(POSITION, StorageKind::Dense);
    let e = world.create().unwrap();
    world.insert(e, POSITION, 1);
    assert_eq!(entities_of(&world, &mask_of(&[p, 5])), Vec::<Entity>::new());
    assert_eq!(entities_of(&world, &mask_of(&[700])), Vec::<Entity>::new());
}

#[test]
fn view_cursor_counts_down() {
    let mut world: World<i32> = World::new();
    let a = world.create().unwrap();
    let b = world.create().unwrap();
    let mut view = world.view(&BitSet::new());
    assert_eq!(view.len(), 2);
    assert_eq!(view.next(), Some(a));
    assert_eq!(view.len(), 1);
    assert_eq!(view.next(), Some(b));
    assert_eq!(view.len(), 0);
    assert_eq!(view.next(), None);
    assert_eq!(view.as_slice(), &[a, b][..]);
    let mut again = world.view(&BitSet::new());
    assert_eq!(again.next(), Some(a));
}
