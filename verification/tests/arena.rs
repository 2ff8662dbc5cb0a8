use std::cell::Cell;
use std::rc::Rc;

use crayon::ecs::{Arena, ComponentArena, HashMapArena, StorageKind, VecArena};

/// A value that counts how often one of its kind is dropped.
struct Counted {
    id: u32,
    drops: Rc<Cell<usize>>,
}

impl Drop for Counted {
    fn drop(&mut self) {
        self.drops.set(self.drops.get() + 1);
    }
}

fn round_trip<A: ComponentArena<i64>>() {
    let mut arena = A::new();
    assert_eq!(arena.get(7), None);
    assert_eq!(arena.insert(7, 70), None);
    assert_eq!(arena.get(7), Some(&70));
    assert_eq!(arena.get(6), None);
    assert_eq!(arena.get(8), None);
    assert_eq!(arena.remove(7), Some(70));
    assert_eq!(arena.get(7), None);
    assert_eq!(arena.remove(7), None);
}

fn overwrite<A: ComponentArena<i64>>() {
    let mut arena = A::new();
    assert_eq!(arena.insert(3, 1), None);
    assert_eq!(arena.insert(3, 2), Some(1));
    assert_eq!(arena.get(3), Some(&2));
    assert_eq!(arena.remove(3), Some(2));
}

fn change_in_place<A: ComponentArena<i64>>() {
    let mut arena = A::new();
    arena.insert(4, 40);
    arena.insert(5, 50);
    assert!(arena.get_mut(6).is_none());
    match arena.get_mut(4) {
        Some(slot) => {
            assert_eq!(*slot, 40);
            *slot = 41;
        }
        None => panic!("a value is present at 4"),
    }
    assert_eq!(arena.get(4), Some(&41));
    assert_eq!(arena.get(5), Some(&50));
    *arena.get_unchecked_mut(5) += 1;
    assert_eq!(*arena.get_unchecked(5), 51);
    assert_eq!(*arena.get_unchecked(4), 41);
}

#[test]
fn dense_arena_round_trip() {
    round_trip::<VecArena<i64>>();
}

#[test]
fn sparse_arena_round_trip() {
    round_trip::<HashMapArena<i64>>();
}

#[test]
fn either_arena_round_trip() {
    round_trip::<Arena<i64>>();
}

#[test]
fn dense_arena_overwrite() {
    overwrite::<VecArena<i64>>();
}

#[test]
fn sparse_arena_overwrite() {
    overwrite::<HashMapArena<i64>>();
}

#[test]
fn dense_arena_changes_in_place() {
    change_in_place::<VecArena<i64>>();
}

#[test]
fn sparse_arena_changes_in_place() {
    change_in_place::<HashMapArena<i64>>();
}

#[test]
fn either_arena_changes_in_place() {
    change_in_place::<Arena<i64>>();
}

#[test]
fn dense_arena_reads_nothing_past_its_end() {
    let mut arena: VecArena<i64> = VecArena::new();
    arena.insert(2, 20);
    assert_eq!(arena.get(3), None);
    assert_eq!(arena.get(u32::MAX), None);
    assert_eq!(arena.remove(1_000_000), None);
    assert!(arena.get_mut(1_000_000).is_none());
}

#[test]
fn dense_arena_gaps_are_absent() {
    let mut arena: VecArena<i64> = VecArena::new();
    arena.insert(9, 90);
    for id in 0..9 {
        assert_eq!(arena.get(id), None);
    }
    assert_eq!(arena.get(9), Some(&90));
}

#[test]
fn dense_arena_mask_follows_the_contents() {
    let mut arena: VecArena<i64> = VecArena::new();
    assert!(arena.mask().is_empty());
    arena.insert(2, 1);
    arena.insert(5, 2);
    arena.insert(9, 3);
    arena.insert(5, 4);
    assert_eq!(arena.mask().iter(), vec![2, 5, 9]);
    arena.remove(5);
    arena.remove(7);
    assert_eq!(arena.mask().iter(), vec![2, 9]);
    for id in 0..12u32 {
        assert_eq!(arena.mask().contains(id as usize), arena.get(id).is_some());
    }
    arena.remove(2);
    arena.remove(9);
    assert!(arena.mask().is_empty());
    assert_eq!(arena.get(9), None);
}

#[test]
fn dense_arena_drop_touches_present_slots_only() {
    let drops = Rc::new(Cell::new(0));
    {
        let mut arena: VecArena<Counted> = VecArena::new();
        for id in [2u32, 5, 9] {
            let prior = arena.insert(id, Counted { id, drops: drops.clone() });
            assert!(prior.is_none());
        }
        assert_eq!(arena.get(5).map(|c| c.id), Some(5));
        assert_eq!(drops.get(), 0);
    }
    assert_eq!(drops.get(), 3);
}

#[test]
fn dense_arena_clear_drops_each_value_once() {
    let drops = Rc::new(Cell::new(0));
    let mut arena: VecArena<Counted> = VecArena::new();
    for id in [2u32, 5, 9] {
        arena.insert(id, Counted { id, drops: drops.clone() });
    }
    arena.clear();
    assert_eq!(drops.get(), 3);
    assert!(arena.mask().is_empty());
    assert!(arena.get(2).is_none());
    drop(arena);
    assert_eq!(drops.get(), 3);
}

#[test]
fn dense_arena_hands_values_back_instead_of_dropping_them() {
    let drops = Rc::new(Cell::new(0));
    let mut arena: VecArena<Counted> = VecArena::new();
    arena.insert(1, Counted { id: 10, drops: drops.clone() });
    let first = arena.insert(1, Counted { id: 11, drops: drops.clone() });
    assert_eq!(drops.get(), 0);
    assert_eq!(first.map(|c| c.id), Some(10));
    assert_eq!(drops.get(), 1);
    let second = arena.remove(1);
    assert_eq!(drops.get(), 1);
    assert_eq!(second.map(|c| c.id), Some(11));
    assert_eq!(drops.get(), 2);
    drop(arena);
    assert_eq!(drops.get(), 2);
}

#[test]
fn arena_keeps_the_layout_it_was_made_with() {
    let mut dense: Arena<i64> = Arena::with_kind(StorageKind::Dense);
    let mut sparse: Arena<i64> = Arena::with_kind(StorageKind::Sparse);
    assert_eq!(dense.storage(), StorageKind::Dense);
    assert_eq!(sparse.storage(), StorageKind::Sparse);
    dense.insert(1, 1);
    sparse.insert(1, 1);
    dense.remove(1);
    assert!(!dense.contains(1));
    assert!(sparse.contains(1));
    assert!(!sparse.contains(2));
    assert_eq!(dense.storage(), StorageKind::Dense);
    assert_eq!(sparse.storage(), StorageKind::Sparse);
    let fresh: Arena<i64> = Arena::new();
    assert_eq!(fresh.storage(), StorageKind::Sparse);
}

#[test]
fn dense_arena_grows_as_far_as_needed_and_never_shrinks() {
    let mut arena: VecArena<i64> = VecArena::new();
    assert_eq!(arena.capacity(), 0);
    arena.insert(4, 1);
    assert_eq!(arena.capacity(), 5);
    arena.insert(2, 1);
    assert_eq!(arena.capacity(), 5);
    arena.insert(5, 1);
    assert_eq!(arena.capacity(), 6);
    arena.remove(5);
    arena.remove(4);
    arena.remove(2);
    assert_eq!(arena.capacity(), 6);
    assert!(arena.mask().is_empty());
    arena.clear();
    assert_eq!(arena.capacity(), 0);
}
