//! Systems: what a unit of logic declares that it reads and writes, and the
//! rule by which a batch of systems may run at the same time.

use vstd::prelude::*;

use super::bitset::BitSet;
use super::component::{Arena, ComponentArena};
use super::world::{
    lemma_knows_union, lemma_mask_of_disjoint, lemma_mask_of_empty, lemma_mask_of_one,
    lemma_mask_of_union, EntityView, TypeKey, World,
};

verus! {

/// What a system asks of the world: a bundle of needs, each to read or to
/// write the components of one type. A tuple of bundles is a bundle.
pub trait SystemData {
    /// The keys of the component types that the bundle reads.
    spec fn reads(&self) -> Set<TypeKey>;

    /// The keys of the component types that the bundle writes.
    spec fn writes(&self) -> Set<TypeKey>;

    /// The mask of the arenas that the bundle reads.
    fn readables<T>(&self, world: &World<T>) -> (mask: BitSet)
        requires
            world.wf(),
            world.knows(self.reads()),
        ensures
            mask@ == world.mask_of(self.reads()),
    ;

    /// The mask of the arenas that the bundle writes.
    fn writables<T>(&self, world: &World<T>) -> (mask: BitSet)
        requires
            world.wf(),
            world.knows(self.writes()),
        ensures
            mask@ == world.mask_of(self.writes()),
    ;
}

/// The need to read the components of the type registered under `key`.
#[derive(Debug, Clone, Copy, PartialEq, Eq, Structural)]
pub struct Fetch {
    pub key: TypeKey,
}

/// The need to write the components of the type registered under `key`.
#[derive(Debug, Clone, Copy, PartialEq, Eq, Structural)]
pub struct FetchMut {
    pub key: TypeKey,
}

impl Fetch {
    /// The need to read the type registered under `key`.
    pub fn new(key: TypeKey) -> (need: Fetch)
        ensures
            need.key == key,
    {
        Fetch { key }
    }

    /// The arena that the need names, to read.
    pub fn fetch<'a, T>(&self, world: &'a World<T>) -> (arena: &'a Arena<T>)
        requires
            world.wf(),
            world.is_registered(self.key),
        ensures
            *arena == world.arenas()[world.index_of(self.key) as int],
            arena.wf(),
    {
        world.arena(self.key)
    }
}

impl FetchMut {
    /// The need to write the type registered under `key`.
    pub fn new(key: TypeKey) -> (need: FetchMut)
        ensures
            need.key == key,
    {
        FetchMut { key }
    }

    /// The arena that the need names, to change.
    pub fn fetch<'a, T>(&self, world: &'a mut World<T>) -> (arena: &'a mut Arena<T>)
        requires
            old(world).wf(),
            old(world).is_registered(self.key),
        ensures
            *arena == old(world).arenas()[old(world).index_of(self.key) as int],
            arena.wf(),
            final(world).entities() == old(world).entities(),
            final(world).registry() == old(world).registry(),
            final(world).keys() == old(world).keys(),
            final(world).arenas() == old(world).arenas().update(
                old(world).index_of(self.key) as int,
                *final(arena),
            ),
            final(arena).wf() && old(world).clean(*final(arena)) ==> final(world).wf(),
    {
        world.arena_mut(self.key)
    }
}

impl SystemData for () {
    open spec fn reads(&self) -> Set<TypeKey> {
        Set::empty()
    }

    open spec fn writes(&self) -> Set<TypeKey> {
        Set::empty()
    }

    fn readables<T>(&self, world: &World<T>) -> (mask: BitSet) {
        proof {
            lemma_mask_of_empty(world);
        }
        BitSet::new()
    }

    fn writables<T>(&self, world: &World<T>) -> (mask: BitSet) {
        proof {
            lemma_mask_of_empty(world);
        }
        BitSet::new()
    }
}

impl SystemData for Fetch {
    open spec fn reads(&self) -> Set<TypeKey> {
        set![self.key]
    }

    open spec fn writes(&self) -> Set<TypeKey> {
        Set::empty()
    }

    fn readables<T>(&self, world: &World<T>) -> (mask: BitSet) {
        let mut mask = BitSet::new();
        assert(set![self.key].contains(self.key));
        mask.insert(world.index(self.key));
        proof {
            lemma_mask_of_one(world, self.key);
            assert(mask@ =~= set![world.index_of(self.key)]);
        }
        mask
    }

    fn writables<T>(&self, world: &World<T>) -> (mask: BitSet) {
        proof {
            lemma_mask_of_empty(world);
        }
        BitSet::new()
    }
}

impl SystemData for FetchMut {
    open spec fn reads(&self) -> Set<TypeKey> {
        Set::empty()
    }

    open spec fn writes(&self) -> Set<TypeKey> {
        set![self.key]
    }

    fn readables<T>(&self, world: &World<T>) -> (mask: BitSet) {
        proof {
            lemma_mask_of_empty(world);
        }
        BitSet::new()
    }

    fn writables<T>(&self, world: &World<T>) -> (mask: BitSet) {
        let mut mask = BitSet::new();
        assert(set![self.key].contains(self.key));
        mask.insert(world.index(self.key));
        proof {
            lemma_mask_of_one(world, self.key);
            assert(mask@ =~= set![world.index_of(self.key)]);
        }
        mask
    }
}

impl<T1: SystemData> SystemData for (T1,) {
    open spec fn reads(&self) -> Set<TypeKey> {
        self.0.reads()
    }

    open spec fn writes(&self) -> Set<TypeKey> {
        self.0.writes()
    }

    fn readables<T>(&self, world: &World<T>) -> (mask: BitSet) {
        self.0.readables(world)
    }

    fn writables<T>(&self, world: &World<T>) -> (mask: BitSet) {
        self.0.writables(world)
    }
}

/// What a union of keys is to a world: it knows the union when it knows
/// both parts, and the mask of the union is the union of the masks.
proof fn lemma_union_of_keys<T>(world: &World<T>, a: Set<TypeKey>, b: Set<TypeKey>)
    ensures
        world.knows(a.union(b)) <==> world.knows(a) && world.knows(b),
        world.mask_of(a.union(b)) == world.mask_of(a).union(world.mask_of(b)),
{
    lemma_knows_union(world, a, b);
    lemma_mask_of_union(world, a, b);
}

impl<T1: SystemData, T2: SystemData> SystemData for (T1, T2) {
    open spec fn reads(&self) -> Set<TypeKey> {
        self.0.reads()
            .union(self.1.reads())
    }

    open spec fn writes(&self) -> Set<TypeKey> {
        self.0.writes()
            .union(self.1.writes())
    }

    fn readables<T>(&self, world: &World<T>) -> (mask: BitSet) {
        proof {
            let k1 = self.0.reads();
            lemma_union_of_keys(world, k1, self.1.reads());
        }
        let mut mask = self.0.readables(world);
        mask = mask.union_with(&self.1.readables(world));
        mask
    }

    fn writables<T>(&self, world: &World<T>) -> (mask: BitSet) {
        proof {
            let k1 = self.0.writes();
            lemma_union_of_keys(world, k1, self.1.writes());
        }
        let mut mask = self.0.writables(world);
        mask = mask.union_with(&self.1.writables(world));
        mask
    }
}

impl<T1: SystemData, T2: SystemData, T3: SystemData> SystemData for (T1, T2, T3) {
    open spec fn reads(&self) -> Set<TypeKey> {
        self.0.reads()
            .union(self.1.reads())
            .union(self.2.reads())
    }

    open spec fn writes(&self) -> Set<TypeKey> {
        self.0.writes()
            .union(self.1.writes())
            .union(self.2.writes())
    }

    fn readables<T>(&self, world: &World<T>) -> (mask: BitSet) {
        proof {
            let k1 = self.0.reads();
            let k2 = k1.union(self.1.reads());
            lemma_union_of_keys(world, k2, self.2.reads());
            lemma_union_of_keys(world, k1, self.1.reads());
        }
        let mut mask = self.0.readables(world);
        mask = mask.union_with(&self.1.readables(world));
        mask = mask.union_with(&self.2.readables(world));
        mask
    }

    fn writables<T>(&self, world: &World<T>) -> (mask: BitSet) {
        proof {
            let k1 = self.0.writes();
            let k2 = k1.union(self.1.writes());
            lemma_union_of_keys(world, k2, self.2.writes());
            lemma_union_of_keys(world, k1, self.1.writes());
        }
        let mut mask = self.0.writables(world);
        mask = mask.union_with(&self.1.writables(world));
        mask = mask.union_with(&self.2.writables(world));
        mask
    }
}

impl<
    T1: SystemData,
    T2: SystemData,
    T3: SystemData,
    T4: SystemData,
> SystemData for (T1, T2, T3, T4) {
    open spec fn reads(&self) -> Set<TypeKey> {
        self.0.reads()
            .union(self.1.reads())
            .union(self.2.reads())
            .union(self.3.reads())
    }

    open spec fn writes(&self) -> Set<TypeKey> {
        self.0.writes()
            .union(self.1.writes())
            .union(self.2.writes())
            .union(self.3.writes())
    }

    fn readables<T>(&self, world: &World<T>) -> (mask: BitSet) {
        proof {
            let k1 = self.0.reads();
            let k2 = k1.union(self.1.reads());
            let k3 = k2.union(self.2.reads());
            lemma_union_of_keys(world, k3, self.3.reads());
            lemma_union_of_keys(world, k2, self.2.reads());
            lemma_union_of_keys(world, k1, self.1.reads());
        }
        let mut mask = self.0.readables(world);
        mask = mask.union_with(&self.1.readables(world));
        mask = mask.union_with(&self.2.readables(world));
        mask = mask.union_with(&self.3.readables(world));
        mask
    }

    fn writables<T>(&self, world: &World<T>) -> (mask: BitSet) {
        proof {
            let k1 = self.0.writes();
            let k2 = k1.union(self.1.writes());
            let k3 = k2.union(self.2.writes());
            lemma_union_of_keys(world, k3, self.3.writes());
            lemma_union_of_keys(world, k2, self.2.writes());
            lemma_union_of_keys(world, k1, self.1.writes());
        }
        let mut mask = self.0.writables(world);
        mask = mask.union_with(&self.1.writables(world));
        mask = mask.union_with(&self.2.writables(world));
        mask = mask.union_with(&self.3.writables(world));
        mask
    }
}

impl<
    T1: SystemData,
    T2: SystemData,
    T3: SystemData,
    T4: SystemData,
    T5: SystemData,
> SystemData for (T1, T2, T3, T4, T5) {
    open spec fn reads(&self) -> Set<TypeKey> {
        self.0.reads()
            .union(self.1.reads())
            .union(self.2.reads())
            .union(self.3.reads())
            .union(self.4.reads())
    }

    open spec fn writes(&self) -> Set<TypeKey> {
        self.0.writes()
            .union(self.1.writes())
            .union(self.2.writes())
            .union(self.3.writes())
            .union(self.4.writes())
    }

    fn readables<T>(&self, world: &World<T>) -> (mask: BitSet) {
        proof {
            let k1 = self.0.reads();
            let k2 = k1.union(self.1.reads());
            let k3 = k2.union(self.2.reads());
            let k4 = k3.union(self.3.reads());
            lemma_union_of_keys(world, k4, self.4.reads());
            lemma_union_of_keys(world, k3, self.3.reads());
            lemma_union_of_keys(world, k2, self.2.reads());
            lemma_union_of_keys(world, k1, self.1.reads());
        }
        let mut mask = self.0.readables(world);
        mask = mask.union_with(&self.1.readables(world));
        mask = mask.union_with(&self.2.readables(world));
        mask = mask.union_with(&self.3.readables(world));
        mask = mask.union_with(&self.4.readables(world));
        mask
    }

    fn writables<T>(&self, world: &World<T>) -> (mask: BitSet) {
        proof {
            let k1 = self.0.writes();
            let k2 = k1.union(self.1.writes());
            let k3 = k2.union(self.2.writes());
            let k4 = k3.union(self.3.writes());
            lemma_union_of_keys(world, k4, self.4.writes());
            lemma_union_of_keys(world, k3, self.3.writes());
            lemma_union_of_keys(world, k2, self.2.writes());
            lemma_union_of_keys(world, k1, self.1.writes());
        }
        let mut mask = self.0.writables(world);
        mask = mask.union_with(&self.1.writables(world));
        mask = mask.union_with(&self.2.writables(world));
        mask = mask.union_with(&self.3.writables(world));
        mask = mask.union_with(&self.4.writables(world));
        mask
    }
}

impl<
    T1: SystemData,
    T2: SystemData,
    T3: SystemData,
    T4: SystemData,
    T5: SystemData,
    T6: SystemData,
> SystemData for (T1, T2, T3, T4, T5, T6) {
    open spec fn reads(&self) -> Set<TypeKey> {
        self.0.reads()
            .union(self.1.reads())
            .union(self.2.reads())
            .union(self.3.reads())
            .union(self.4.reads())
            .union(self.5.reads())
    }

    open spec fn writes(&self) -> Set<TypeKey> {
        self.0.writes()
            .union(self.1.writes())
            .union(self.2.writes())
            .union(self.3.writes())
            .union(self.4.writes())
            .union(self.5.writes())
    }

    fn readables<T>(&self, world: &World<T>) -> (mask: BitSet) {
        proof {
            let k1 = self.0.reads();
            let k2 = k1.union(self.1.reads());
            let k3 = k2.union(self.2.reads());
            let k4 = k3.union(self.3.reads());
            let k5 = k4.union(self.4.reads());
            lemma_union_of_keys(world, k5, self.5.reads());
            lemma_union_of_keys(world, k4, self.4.reads());
            lemma_union_of_keys(world, k3, self.3.reads());
            lemma_union_of_keys(world, k2, self.2.reads());
            lemma_union_of_keys(world, k1, self.1.reads());
        }
        let mut mask = self.0.readables(world);
        mask = mask.union_with(&self.1.readables(world));
        mask = mask.union_with(&self.2.readables(world));
        mask = mask.union_with(&self.3.readables(world));
        mask = mask.union_with(&self.4.readables(world));
        mask = mask.union_with(&self.5.readables(world));
        mask
    }

    fn writables<T>(&self, world: &World<T>) -> (mask: BitSet) {
        proof {
            let k1 = self.0.writes();
            let k2 = k1.union(self.1.writes());
            let k3 = k2.union(self.2.writes());
            let k4 = k3.union(self.3.writes());
            let k5 = k4.union(self.4.writes());
            lemma_union_of_keys(world, k5, self.5.writes());
            lemma_union_of_keys(world, k4, self.4.writes());
            lemma_union_of_keys(world, k3, self.3.writes());
            lemma_union_of_keys(world, k2, self.2.writes());
            lemma_union_of_keys(world, k1, self.1.writes());
        }
        let mut mask = self.0.writables(world);
        mask = mask.union_with(&self.1.writables(world));
        mask = mask.union_with(&self.2.writables(world));
        mask = mask.union_with(&self.3.writables(world));
        mask = mask.union_with(&self.4.writables(world));
        mask = mask.union_with(&self.5.writables(world));
        mask
    }
}

impl<
    T1: SystemData,
    T2: SystemData,
    T3: SystemData,
    T4: SystemData,
    T5: SystemData,
    T6: SystemData,
    T7: SystemData,
> SystemData for (T1, T2, T3, T4, T5, T6, T7) {
    open spec fn reads(&self) -> Set<TypeKey> {
        self.0.reads()
            .union(self.1.reads())
            .union(self.2.reads())
            .union(self.3.reads())
            .union(self.4.reads())
            .union(self.5.reads())
            .union(self.6.reads())
    }

    open spec fn writes(&self) -> Set<TypeKey> {
        self.0.writes()
            .union(self.1.writes())
            .union(self.2.writes())
            .union(self.3.writes())
            .union(self.4.writes())
            .union(self.5.writes())
            .union(self.6.writes())
    }

    fn readables<T>(&self, world: &World<T>) -> (mask: BitSet) {
        proof {
            let k1 = self.0.reads();
            let k2 = k1.union(self.1.reads());
            let k3 = k2.union(self.2.reads());
            let k4 = k3.union(self.3.reads());
            let k5 = k4.union(self.4.reads());
            let k6 = k5.union(self.5.reads());
            lemma_union_of_keys(world, k6, self.6.reads());
            lemma_union_of_keys(world, k5, self.5.reads());
            lemma_union_of_keys(world, k4, self.4.reads());
            lemma_union_of_keys(world, k3, self.3.reads());
            lemma_union_of_keys(world, k2, self.2.reads());
            lemma_union_of_keys(world, k1, self.1.reads());
        }
        let mut mask = self.0.readables(world);
        mask = mask.union_with(&self.1.readables(world));
        mask = mask.union_with(&self.2.readables(world));
        mask = mask.union_with(&self.3.readables(world));
        mask = mask.union_with(&self.4.readables(world));
        mask = mask.union_with(&self.5.readables(world));
        mask = mask.union_with(&self.6.readables(world));
        mask
    }

    fn writables<T>(&self, world: &World<T>) -> (mask: BitSet) {
        proof {
            let k1 = self.0.writes();
            let k2 = k1.union(self.1.writes());
            let k3 = k2.union(self.2.writes());
            let k4 = k3.union(self.3.writes());
            let k5 = k4.union(self.4.writes());
            let k6 = k5.union(self.5.writes());
            lemma_union_of_keys(world, k6, self.6.writes());
            lemma_union_of_keys(world, k5, self.5.writes());
            lemma_union_of_keys(world, k4, self.4.writes());
            lemma_union_of_keys(world, k3, self.3.writes());
            lemma_union_of_keys(world, k2, self.2.writes());
            lemma_union_of_keys(world, k1, self.1.writes());
        }
        let mut mask = self.0.writables(world);
        mask = mask.union_with(&self.1.writables(world));
        mask = mask.union_with(&self.2.writables(world));
        mask = mask.union_with(&self.3.writables(world));
        mask = mask.union_with(&self.4.writables(world));
        mask = mask.union_with(&self.5.writables(world));
        mask = mask.union_with(&self.6.writables(world));
        mask
    }
}

impl<
    T1: SystemData,
    T2: SystemData,
    T3: SystemData,
    T4: SystemData,
    T5: SystemData,
    T6: SystemData,
    T7: SystemData,
    T8: SystemData,
> SystemData for (T1, T2, T3, T4, T5, T6, T7, T8) {
    open spec fn reads(&self) -> Set<TypeKey> {
        self.0.reads()
            .union(self.1.reads())
            .union(self.2.reads())
            .union(self.3.reads())
            .union(self.4.reads())
            .union(self.5.reads())
            .union(self.6.reads())
            .union(self.7.reads())
    }

    open spec fn writes(&self) -> Set<TypeKey> {
        self.0.writes()
            .union(self.1.writes())
            .union(self.2.writes())
            .union(self.3.writes())
            .union(self.4.writes())
            .union(self.5.writes())
            .union(self.6.writes())
            .union(self.7.writes())
    }

    fn readables<T>(&self, world: &World<T>) -> (mask: BitSet) {
        proof {
            let k1 = self.0.reads();
            let k2 = k1.union(self.1.reads());
            let k3 = k2.union(self.2.reads());
            let k4 = k3.union(self.3.reads());
            let k5 = k4.union(self.4.reads());
            let k6 = k5.union(self.5.reads());
            let k7 = k6.union(self.6.reads());
            lemma_union_of_keys(world, k7, self.7.reads());
            lemma_union_of_keys(world, k6, self.6.reads());
            lemma_union_of_keys(world, k5, self.5.reads());
            lemma_union_of_keys(world, k4, self.4.reads());
            lemma_union_of_keys(world, k3, self.3.reads());
            lemma_union_of_keys(world, k2, self.2.reads());
            lemma_union_of_keys(world, k1, self.1.reads());
        }
        let mut mask = self.0.readables(world);
        mask = mask.union_with(&self.1.readables(world));
        mask = mask.union_with(&self.2.readables(world));
        mask = mask.union_with(&self.3.readables(world));
        mask = mask.union_with(&self.4.readables(world));
        mask = mask.union_with(&self.5.readables(world));
        mask = mask.union_with(&self.6.readables(world));
        mask = mask.union_with(&self.7.readables(world));
        mask
    }

    fn writables<T>(&self, world: &World<T>) -> (mask: BitSet) {
        proof {
            let k1 = self.0.writes();
            let k2 = k1.union(self.1.writes());
            let k3 = k2.union(self.2.writes());
            let k4 = k3.union(self.3.writes());
            let k5 = k4.union(self.4.writes());
            let k6 = k5.union(self.5.writes());
            let k7 = k6.union(self.6.writes());
            lemma_union_of_keys(world, k7, self.7.writes());
            lemma_union_of_keys(world, k6, self.6.writes());
            lemma_union_of_keys(world, k5, self.5.writes());
            lemma_union_of_keys(world, k4, self.4.writes());
            lemma_union_of_keys(world, k3, self.3.writes());
            lemma_union_of_keys(world, k2, self.2.writes());
            lemma_union_of_keys(world, k1, self.1.writes());
        }
        let mut mask = self.0.writables(world);
        mask = mask.union_with(&self.1.writables(world));
        mask = mask.union_with(&self.2.writables(world));
        mask = mask.union_with(&self.3.writables(world));
        mask = mask.union_with(&self.4.writables(world));
        mask = mask.union_with(&self.5.writables(world));
        mask = mask.union_with(&self.6.writables(world));
        mask = mask.union_with(&self.7.writables(world));
        mask
    }
}

impl<
    T1: SystemData,
    T2: SystemData,
    T3: SystemData,
    T4: SystemData,
    T5: SystemData,
    T6: SystemData,
    T7: SystemData,
    T8: SystemData,
    T9: SystemData,
> SystemData for (T1, T2, T3, T4, T5, T6, T7, T8, T9) {
    open spec fn reads(&self) -> Set<TypeKey> {
        self.0.reads()
            .union(self.1.reads())
            .union(self.2.reads())
            .union(self.3.reads())
            .union(self.4.reads())
            .union(self.5.reads())
            .union(self.6.reads())
            .union(self.7.reads())
            .union(self.8.reads())
    }

    open spec fn writes(&self) -> Set<TypeKey> {
        self.0.writes()
            .union(self.1.writes())
            .union(self.2.writes())
            .union(self.3.writes())
            .union(self.4.writes())
            .union(self.5.writes())
            .union(self.6.writes())
            .union(self.7.writes())
            .union(self.8.writes())
    }

    fn readables<T>(&self, world: &World<T>) -> (mask: BitSet) {
        proof {
            let k1 = self.0.reads();
            let k2 = k1.union(self.1.reads());
            let k3 = k2.union(self.2.reads());
            let k4 = k3.union(self.3.reads());
            let k5 = k4.union(self.4.reads());
            let k6 = k5.union(self.5.reads());
            let k7 = k6.union(self.6.reads());
            let k8 = k7.union(self.7.reads());
            lemma_union_of_keys(world, k8, self.8.reads());
            lemma_union_of_keys(world, k7, self.7.reads());
            lemma_union_of_keys(world, k6, self.6.reads());
            lemma_union_of_keys(world, k5, self.5.reads());
            lemma_union_of_keys(world, k4, self.4.reads());
            lemma_union_of_keys(world, k3, self.3.reads());
            lemma_union_of_keys(world, k2, self.2.reads());
            lemma_union_of_keys(world, k1, self.1.reads());
        }
        let mut mask = self.0.readables(world);
        mask = mask.union_with(&self.1.readables(world));
        mask = mask.union_with(&self.2.readables(world));
        mask = mask.union_with(&self.3.readables(world));
        mask = mask.union_with(&self.4.readables(world));
        mask = mask.union_with(&self.5.readables(world));
        mask = mask.union_with(&self.6.readables(world));
        mask = mask.union_with(&self.7.readables(world));
        mask = mask.union_with(&self.8.readables(world));
        mask
    }

    fn writables<T>(&self, world: &World<T>) -> (mask: BitSet) {
        proof {
            let k1 = self.0.writes();
            let k2 = k1.union(self.1.writes());
            let k3 = k2.union(self.2.writes());
            let k4 = k3.union(self.3.writes());
            let k5 = k4.union(self.4.writes());
            let k6 = k5.union(self.5.writes());
            let k7 = k6.union(self.6.writes());
            let k8 = k7.union(self.7.writes());
            lemma_union_of_keys(world, k8, self.8.writes());
            lemma_union_of_keys(world, k7, self.7.writes());
            lemma_union_of_keys(world, k6, self.6.writes());
            lemma_union_of_keys(world, k5, self.5.writes());
            lemma_union_of_keys(world, k4, self.4.writes());
            lemma_union_of_keys(world, k3, self.3.writes());
            lemma_union_of_keys(world, k2, self.2.writes());
            lemma_union_of_keys(world, k1, self.1.writes());
        }
        let mut mask = self.0.writables(world);
        mask = mask.union_with(&self.1.writables(world));
        mask = mask.union_with(&self.2.writables(world));
        mask = mask.union_with(&self.3.writables(world));
        mask = mask.union_with(&self.4.writables(world));
        mask = mask.union_with(&self.5.writables(world));
        mask = mask.union_with(&self.6.writables(world));
        mask = mask.union_with(&self.7.writables(world));
        mask = mask.union_with(&self.8.writables(world));
        mask
    }
}

/// A unit of logic that runs over the entities which have all the components
/// that it needs. Its type declares the needs as a bundle; a run may change
/// the arenas that the bundle writes, and nothing else of the world.
pub trait System<T>: Sized {
    /// The type of the bundle of needs.
    type ViewWith: SystemData;

    /// What a run returns.
    type Result;

    /// The bundle of needs.
    const DATA: Self::ViewWith;

    /// Runs the system over the entities of `view`, each of which is live
    /// and has every component that the system needs.
    fn run(&self, view: EntityView, world: &mut World<T>) -> (result: Self::Result)
        requires
            old(world).wf(),
            old(world).knows(Self::DATA.reads()),
            old(world).knows(Self::DATA.writes()),
            view.wf(),
            old(world).admits(
                &view,
                old(world).mask_of(Self::DATA.reads()).union(
                    old(world).mask_of(Self::DATA.writes()),
                ),
            ),
        ensures
            final(world).wf(),
            final(world).keeps(old(world), old(world).mask_of(Self::DATA.writes())),
    ;

    /// Runs the system as `run` does, with the system itself open to change.
    /// A system that does not say otherwise runs as `run` does and stays as
    /// it is.
    fn run_mut(&mut self, view: EntityView, world: &mut World<T>) -> (result: Self::Result)
        requires
            old(world).wf(),
            old(world).knows(Self::DATA.reads()),
            old(world).knows(Self::DATA.writes()),
            view.wf(),
            old(world).admits(
                &view,
                old(world).mask_of(Self::DATA.reads()).union(
                    old(world).mask_of(Self::DATA.writes()),
                ),
            ),
        ensures
            final(world).wf(),
            final(world).keeps(old(world), old(world).mask_of(Self::DATA.writes())),
        default_ensures
            *final(self) == *old(self),
            exists|w: &mut World<T>|
                {
                    &&& *w == *old(world)
                    &&& *final(w) == *final(world)
                    &&& call_ensures(Self::run, (&*old(self), view, w), result)
                },
    {
        self.run(view, world)
    }

    /// Looks at the entities of `view`, to change nothing.
    fn view(&self, view: EntityView)
        requires
            view.wf(),
    {
    }

    /// Looks at the entities of `view`, with the system itself open to change.
    fn view_mut(&mut self, view: EntityView)
        requires
            view.wf(),
    {
    }

    /// Runs the system over the entities of `world` that have all the
    /// components that it needs: the result and the world are what `run`
    /// makes of the view of the system's mask.
    fn run_at(&self, world: &mut World<T>) -> (result: Self::Result)
        requires
            old(world).wf(),
            old(world).knows(Self::DATA.reads()),
            old(world).knows(Self::DATA.writes()),
        ensures
            final(world).wf(),
            final(world).keeps(old(world), old(world).mask_of(Self::DATA.writes())),
            exists|view: EntityView, w: &mut World<T>|
                {
                    &&& old(world).shows(
                        &view,
                        old(world).mask_of(Self::DATA.reads()).union(
                            old(world).mask_of(Self::DATA.writes()),
                        ),
                    )
                    &&& *w == *old(world)
                    &&& *final(w) == *final(world)
                    &&& call_ensures(Self::run, (self, view, w), result)
                },
    {
        let mask = Self::mask_at(world);
        let view = world.view(&mask);
        self.run(view, world)
    }

    /// Runs the system as `run_at` does, with the system itself open to
    /// change: the result, the world and the system are what `run_mut` makes
    /// of the view of the system's mask.
    fn run_mut_at(&mut self, world: &mut World<T>) -> (result: Self::Result)
        requires
            old(world).wf(),
            old(world).knows(Self::DATA.reads()),
            old(world).knows(Self::DATA.writes()),
        ensures
            final(world).wf(),
            final(world).keeps(old(world), old(world).mask_of(Self::DATA.writes())),
            exists|view: EntityView, s: &mut Self, w: &mut World<T>|
                {
                    &&& old(world).shows(
                        &view,
                        old(world).mask_of(Self::DATA.reads()).union(
                            old(world).mask_of(Self::DATA.writes()),
                        ),
                    )
                    &&& *s == *old(self)
                    &&& *final(s) == *final(self)
                    &&& *w == *old(world)
                    &&& *final(w) == *final(world)
                    &&& call_ensures(Self::run_mut, (s, view, w), result)
                },
    {
        let mask = Self::mask_at(world);
        let view = world.view(&mask);
        self.run_mut(view, world)
    }

    /// Looks at the entities of `world` that have all the components that
    /// the system needs.
    fn view_at(&self, world: &World<T>)
        requires
            world.wf(),
            world.knows(Self::DATA.reads()),
            world.knows(Self::DATA.writes()),
    {
        let mask = Self::mask_at(world);
        self.view(world.view(&mask));
    }

    /// Looks as `view_at` does, with the system itself open to change: the
    /// system is what `view_mut` makes of it on the view of its mask.
    fn view_mut_at(&mut self, world: &World<T>)
        requires
            world.wf(),
            world.knows(Self::DATA.reads()),
            world.knows(Self::DATA.writes()),
        ensures
            exists|view: EntityView, s: &mut Self|
                {
                    &&& world.shows(
                        &view,
                        world.mask_of(Self::DATA.reads()).union(
                            world.mask_of(Self::DATA.writes()),
                        ),
                    )
                    &&& *s == *old(self)
                    &&& *final(s) == *final(self)
                    &&& call_ensures(Self::view_mut, (s, view), ())
                },
    {
        let mask = Self::mask_at(world);
        self.view_mut(world.view(&mask));
    }

    /// The mask of the arenas that the system touches: those that it reads
    /// and those that it writes.
    fn mask_at(world: &World<T>) -> (mask: BitSet)
        requires
            world.wf(),
            world.knows(Self::DATA.reads()),
            world.knows(Self::DATA.writes()),
        ensures
            mask@ == world.mask_of(Self::DATA.reads()).union(world.mask_of(Self::DATA.writes())),
    {
        let r = Self::DATA.readables(world);
        let w = Self::DATA.writables(world);
        r.union_with(&w)
    }
}

/// What the validator asks of a system: its two masks in a given world.
pub trait SystemValidator<T> {
    /// Whether the world has an arena for everything that the system names.
    spec fn fits(&self, world: &World<T>) -> bool;

    /// The arena indices that the system reads.
    spec fn readable(&self, world: &World<T>) -> Set<usize>;

    /// The arena indices that the system writes.
    spec fn writable(&self, world: &World<T>) -> Set<usize>;

    /// The mask of the arenas that the system reads.
    fn readables(&self, world: &World<T>) -> (mask: BitSet)
        requires
            world.wf(),
            self.fits(world),
        ensures
            mask@ == self.readable(world),
    ;

    /// The mask of the arenas that the system writes.
    fn writables(&self, world: &World<T>) -> (mask: BitSet)
        requires
            world.wf(),
            self.fits(world),
        ensures
            mask@ == self.writable(world),
    ;
}

impl<T, S: System<T>> SystemValidator<T> for S {
    open spec fn fits(&self, world: &World<T>) -> bool {
        world.knows(S::DATA.reads()) && world.knows(S::DATA.writes())
    }

    open spec fn readable(&self, world: &World<T>) -> Set<usize> {
        world.mask_of(S::DATA.reads())
    }

    open spec fn writable(&self, world: &World<T>) -> Set<usize> {
        world.mask_of(S::DATA.writes())
    }

    fn readables(&self, world: &World<T>) -> (mask: BitSet) {
        S::DATA.readables(world)
    }

    fn writables(&self, world: &World<T>) -> (mask: BitSet) {
        S::DATA.writables(world)
    }
}

/// What one system of a batch reads and what it writes.
#[verifier::reject_recursive_types(K)]
pub struct Access<K> {
    pub reads: Set<K>,
    pub writes: Set<K>,
}

/// Whether the systems of `batch` may run at the same time: no two of them
/// write the same thing, and none writes what any of them reads, itself
/// included.
pub open spec fn compatible<K>(batch: Seq<Access<K>>) -> bool {
    &&& forall|i: int, j: int|
        0 <= i < j < batch.len() ==> (#[trigger] batch[i]).writes.disjoint(
            (#[trigger] batch[j]).writes,
        )
    &&& forall|i: int, j: int|
        0 <= i < batch.len() && 0 <= j < batch.len() ==> (#[trigger] batch[i]).writes.disjoint(
            (#[trigger] batch[j]).reads,
        )
}

/// The masks of the systems of a batch in `world`, one `Access` for each.
pub open spec fn accesses<T>(world: &World<T>, systems: Seq<&dyn SystemValidator<T>>) -> Seq<
    Access<usize>,
> {
    Seq::new(
        systems.len(),
        |i: int| Access { reads: systems[i].readable(world), writes: systems[i].writable(world) },
    )
}

/// Everything that the first `n` systems of `batch` read.
pub open spec fn reads_up_to<K>(batch: Seq<Access<K>>, n: int) -> Set<K> {
    Set::new(|x: K| exists|i: int| 0 <= i < n && batch[i].reads.contains(x))
}

/// Everything that the first `n` systems of `batch` write.
pub open spec fn writes_up_to<K>(batch: Seq<Access<K>>, n: int) -> Set<K> {
    Set::new(|x: K| exists|i: int| 0 <= i < n && batch[i].writes.contains(x))
}

/// A set that is not empty has a member.
proof fn lemma_member<A>(s: Set<A>) -> (x: A)
    requires
        s != Set::<A>::empty(),
    ensures
        s.contains(x),
{
    if forall|y: A| !s.contains(y) {
        assert(s =~= Set::<A>::empty());
    }
    choose|x: A| s.contains(x)
}

/// Whether the systems may run at the same time. The systems are taken in
/// order: the reads and the writes of those seen so far are gathered, a
/// system that writes what an earlier one writes turns the batch down at
/// once, and at the end the batch is turned down if anything that is written
/// is also read.
pub fn validate<T>(world: &World<T>, systems: &[&dyn SystemValidator<T>]) -> (ok: bool)
    requires
        world.wf(),
        forall|i: int| 0 <= i < systems@.len() ==> (#[trigger] systems@[i]).fits(world),
    ensures
        ok == compatible(accesses(world, systems@)),
{
    let ghost batch = accesses(world, systems@);
    let mut r = BitSet::new();
    let mut w = BitSet::new();
    let mut n: usize = 0;
    while n < systems.len()
        invariant
            world.wf(),
            forall|i: int| 0 <= i < systems@.len() ==> (#[trigger] systems@[i]).fits(world),
            batch == accesses(world, systems@),
            n <= systems.len(),
            r@ == reads_up_to(batch, n as int),
            w@ == writes_up_to(batch, n as int),
            forall|i: int, j: int|
                0 <= i < j < n ==> (#[trigger] batch[i]).writes.disjoint(
                    (#[trigger] batch[j]).writes,
                ),
        decreases systems.len() - n,
    {
        let s = systems[n];
        let reads = s.readables(world);
        let writes = s.writables(world);
        let ghost this = batch[n as int];
        assert(this.reads == reads@ && this.writes == writes@);
        r = r.union_with(&reads);
        if !w.intersect_with(&writes).is_empty() {
            proof {
                let x = lemma_member(w@.intersect(writes@));
                let i = choose|i: int| 0 <= i < n && batch[i].writes.contains(x);
                assert(!batch[i].writes.disjoint(this.writes));
            }
            return false;
        }
        proof {
            assert forall|i: int| 0 <= i < n implies (#[trigger] batch[i]).writes.disjoint(
                this.writes,
            ) by {
                assert forall|x: usize| batch[i].writes.contains(x) implies !this.writes.contains(
                    x,
                ) by {
                    if this.writes.contains(x) {
                        assert(w@.intersect(writes@).contains(x));
                    }
                }
            }
        }
        w = w.union_with(&writes);
        proof {
            assert(r@ =~= reads_up_to(batch, n + 1));
            assert(w@ =~= writes_up_to(batch, n + 1));
        }
        n = n + 1;
    }
    let ok = w.intersect_with(&r).is_empty();
    proof {
        if ok {
            assert forall|i: int, j: int|
                0 <= i < batch.len() && 0 <= j < batch.len() implies (#[trigger] batch[i])
                .writes.disjoint((#[trigger] batch[j]).reads) by {
                assert forall|x: usize| batch[i].writes.contains(x) implies !batch[j]
                    .reads.contains(x) by {
                    if batch[j].reads.contains(x) {
                        assert(w@.intersect(r@).contains(x));
                    }
                }
            }
        } else {
            let x = lemma_member(w@.intersect(r@));
            let i = choose|i: int| 0 <= i < n && batch[i].writes.contains(x);
            let j = choose|j: int| 0 <= j < n && batch[j].reads.contains(x);
            assert(!batch[i].writes.disjoint(batch[j].reads));
        }
    }
    ok
}

/// A batch of two or more systems is compatible exactly when every two of
/// its systems are compatible as a batch of their own.
pub proof fn lemma_compatible_pairwise<K>(batch: Seq<Access<K>>)
    requires
        batch.len() >= 2,
    ensures
        compatible(batch) <==> forall|i: int, j: int|
            0 <= i < j < batch.len() ==> compatible(seq![#[trigger] batch[i], #[trigger] batch[j]]),
{
    if compatible(batch) {
        assert forall|i: int, j: int| 0 <= i < j < batch.len() implies compatible(
            seq![#[trigger] batch[i], #[trigger] batch[j]],
        ) by {
            let pair = seq![batch[i], batch[j]];
            assert(pair[0] == batch[i] && pair[1] == batch[j]);
        }
    }
    if forall|i: int, j: int|
        0 <= i < j < batch.len() ==> compatible(seq![#[trigger] batch[i], #[trigger] batch[j]]) {
        assert forall|i: int, j: int| 0 <= i < j < batch.len() implies (#[trigger] batch[i]).writes.disjoint(
            (#[trigger] batch[j]).writes,
        ) by {
            let pair = seq![batch[i], batch[j]];
            assert(compatible(pair));
            assert(pair[0].writes.disjoint(pair[1].writes));
        }
        assert forall|i: int, j: int|
            0 <= i < batch.len() && 0 <= j < batch.len() implies (#[trigger] batch[i]).writes.disjoint(
            (#[trigger] batch[j]).reads,
        ) by {
            if i < j {
                let pair = seq![batch[i], batch[j]];
                assert(compatible(pair));
                assert(pair[0].writes.disjoint(pair[1].reads));
            } else if j < i {
                let pair = seq![batch[j], batch[i]];
                assert(compatible(pair));
                assert(pair[1].writes.disjoint(pair[0].reads));
            } else if i > 0 {
                let pair = seq![batch[0], batch[i]];
                assert(compatible(pair));
                assert(pair[1].writes.disjoint(pair[1].reads));
            } else {
                let pair = seq![batch[i], batch[1]];
                assert(compatible(pair));
                assert(pair[0].writes.disjoint(pair[0].reads));
            }
        }
    }
}

/// A value that a sequence holds twice or more stands at two places in it.
proof fn lemma_two_occurrences<A>(s: Seq<A>, x: A) -> (at: (int, int))
    requires
        s.to_multiset().count(x) >= 2,
    ensures
        0 <= at.0 < s.len(),
        0 <= at.1 < s.len(),
        at.0 != at.1,
        s[at.0] == x,
        s[at.1] == x,
{
    broadcast use vstd::seq_lib::group_to_multiset_ensures;
    broadcast use vstd::multiset::group_multiset_axioms;

    assert(s.contains(x));
    let p = choose|p: int| 0 <= p < s.len() && s[p] == x;
    let rest = s.remove(p);
    assert(rest.to_multiset() == s.to_multiset().remove(x));
    assert(rest.to_multiset().count(x) >= 1);
    assert(rest.contains(x));
    let q = choose|q: int| 0 <= q < rest.len() && rest[q] == x;
    if q < p {
        (p, q)
    } else {
        (p, q + 1)
    }
}

/// A value that stands at two places of a sequence is held twice or more.
proof fn lemma_counted_twice<A>(s: Seq<A>, i: int, j: int)
    requires
        0 <= i < s.len(),
        0 <= j < s.len(),
        i != j,
        s[i] == s[j],
    ensures
        s.to_multiset().count(s[i]) >= 2,
{
    broadcast use vstd::seq_lib::group_to_multiset_ensures;
    broadcast use vstd::multiset::group_multiset_axioms;

    let rest = s.remove(i);
    let k = if j < i {
        j
    } else {
        j - 1
    };
    assert(rest[k] == s[j]);
    assert(rest.contains(s[i]));
    assert(rest.to_multiset() == s.to_multiset().remove(s[i]));
    assert(rest.to_multiset().count(s[i]) >= 1);
}

/// Compatibility carries over from a batch to any batch of the same systems.
proof fn lemma_compatible_carries<K>(a: Seq<Access<K>>, b: Seq<Access<K>>)
    requires
        a.to_multiset() == b.to_multiset(),
        compatible(a),
    ensures
        compatible(b),
{
    a.to_multiset_ensures();
    b.to_multiset_ensures();
    assert forall|x: Access<K>| b.contains(x) implies a.contains(x) by {
        assert(b.to_multiset().count(x) > 0);
        assert(a.to_multiset().count(x) > 0);
    }
    assert forall|i: int, j: int| 0 <= i < j < b.len() implies (#[trigger] b[i]).writes.disjoint(
        (#[trigger] b[j]).writes,
    ) by {
        if b[i] == b[j] {
            lemma_counted_twice(b, i, j);
            let at = lemma_two_occurrences(a, b[i]);
            if at.0 < at.1 {
                assert(a[at.0].writes.disjoint(a[at.1].writes));
            } else {
                assert(a[at.1].writes.disjoint(a[at.0].writes));
            }
        } else {
            assert(b.contains(b[i]));
            assert(b.contains(b[j]));
            assert(a.contains(b[i]));
            assert(a.contains(b[j]));
            let p = choose|p: int| 0 <= p < a.len() && a[p] == b[i];
            let q = choose|q: int| 0 <= q < a.len() && a[q] == b[j];
            if p < q {
                assert(a[p].writes.disjoint(a[q].writes));
            } else {
                assert(a[q].writes.disjoint(a[p].writes));
            }
        }
    }
    assert forall|i: int, j: int|
        0 <= i < b.len() && 0 <= j < b.len() implies (#[trigger] b[i]).writes.disjoint(
        (#[trigger] b[j]).reads,
    ) by {
        assert(b.contains(b[i]));
        assert(b.contains(b[j]));
        assert(a.contains(b[i]));
        assert(a.contains(b[j]));
        let p = choose|p: int| 0 <= p < a.len() && a[p] == b[i];
        let q = choose|q: int| 0 <= q < a.len() && a[q] == b[j];
        assert(a[p].writes.disjoint(a[q].reads));
    }
}

/// The order of the systems in a batch does not matter: two batches that
/// hold the same systems, each as often as the other, are both compatible or
/// both not.
pub proof fn lemma_compatible_permutation<K>(a: Seq<Access<K>>, b: Seq<Access<K>>)
    requires
        a.to_multiset() == b.to_multiset(),
    ensures
        compatible(a) == compatible(b),
{
    if compatible(a) {
        lemma_compatible_carries(a, b);
    }
    if compatible(b) {
        lemma_compatible_carries(b, a);
    }
}

/// Any two orders of the same three values hold the same values.
proof fn lemma_three_reordered<A>(a: A, b: A, c: A)
    ensures
        seq![a, b, c].to_multiset() == seq![a, c, b].to_multiset(),
        seq![a, b, c].to_multiset() == seq![b, a, c].to_multiset(),
        seq![a, b, c].to_multiset() == seq![b, c, a].to_multiset(),
        seq![a, b, c].to_multiset() == seq![c, a, b].to_multiset(),
        seq![a, b, c].to_multiset() == seq![c, b, a].to_multiset(),
{
    broadcast use vstd::seq_lib::group_to_multiset_ensures;
    broadcast use vstd::multiset::group_multiset_axioms;

    let e = Seq::<A>::empty();
    assert(seq![a, b, c] =~= e.push(a).push(b).push(c));
    assert(seq![a, c, b] =~= e.push(a).push(c).push(b));
    assert(seq![b, a, c] =~= e.push(b).push(a).push(c));
    assert(seq![b, c, a] =~= e.push(b).push(c).push(a));
    assert(seq![c, a, b] =~= e.push(c).push(a).push(b));
    assert(seq![c, b, a] =~= e.push(c).push(b).push(a));
    assert(seq![a, b, c].to_multiset() =~= seq![a, c, b].to_multiset());
    assert(seq![a, b, c].to_multiset() =~= seq![b, a, c].to_multiset());
    assert(seq![a, b, c].to_multiset() =~= seq![b, c, a].to_multiset());
    assert(seq![a, b, c].to_multiset() =~= seq![c, a, b].to_multiset());
    assert(seq![a, b, c].to_multiset() =~= seq![c, b, a].to_multiset());
}

/// Three systems are compatible exactly when every two of them are, and
/// the order in which they stand in the batch does not matter.
pub proof fn lemma_compatible_three<K>(a: Access<K>, b: Access<K>, c: Access<K>)
    ensures
        compatible(seq![a, b, c]) <==> compatible(seq![a, b]) && compatible(seq![a, c])
            && compatible(seq![b, c]),
        compatible(seq![a, b, c]) == compatible(seq![a, c, b]),
        compatible(seq![a, b, c]) == compatible(seq![b, a, c]),
        compatible(seq![a, b, c]) == compatible(seq![b, c, a]),
        compatible(seq![a, b, c]) == compatible(seq![c, a, b]),
        compatible(seq![a, b, c]) == compatible(seq![c, b, a]),
{
    lemma_three_reordered(a, b, c);
    lemma_compatible_permutation(seq![a, b, c], seq![a, c, b]);
    lemma_compatible_permutation(seq![a, b, c], seq![b, a, c]);
    lemma_compatible_permutation(seq![a, b, c], seq![b, c, a]);
    lemma_compatible_permutation(seq![a, b, c], seq![c, a, b]);
    lemma_compatible_permutation(seq![a, b, c], seq![c, b, a]);
    let batch = seq![a, b, c];
    lemma_compatible_pairwise(batch);
    assert(batch[0] == a && batch[1] == b && batch[2] == c);
}

/// The masks in `world` of a batch that is given by the keys of what its
/// systems read and write.
pub open spec fn masks<T>(world: &World<T>, batch: Seq<Access<TypeKey>>) -> Seq<Access<usize>> {
    Seq::new(
        batch.len(),
        |i: int|
            Access { reads: world.mask_of(batch[i].reads), writes: world.mask_of(batch[i].writes) },
    )
}

/// The validator compares arena indices; what it decides is a fact about
/// component types. A batch whose keys are all registered is compatible by
/// its masks exactly when it is compatible by its keys.
pub proof fn lemma_compatible_by_keys<T>(world: &World<T>, batch: Seq<Access<TypeKey>>)
    requires
        world.wf(),
        forall|i: int|
            0 <= i < batch.len() ==> world.knows((#[trigger] batch[i]).reads) && world.knows(
                batch[i].writes,
            ),
    ensures
        compatible(masks(world, batch)) == compatible(batch),
{
    let by_index = masks(world, batch);
    assert forall|i: int, j: int| 0 <= i < batch.len() && 0 <= j < batch.len() implies {
        &&& (#[trigger] by_index[i]).writes.disjoint((#[trigger] by_index[j]).writes)
            == batch[i].writes.disjoint(batch[j].writes)
        &&& by_index[i].writes.disjoint(by_index[j].reads) == batch[i].writes.disjoint(
            batch[j].reads,
        )
    } by {
        lemma_mask_of_disjoint(world, batch[i].writes, batch[j].writes);
        lemma_mask_of_disjoint(world, batch[i].writes, batch[j].reads);
    }
    if compatible(batch) {
        assert forall|i: int, j: int| 0 <= i < j < by_index.len() implies (#[trigger] by_index[i]).writes.disjoint(
            (#[trigger] by_index[j]).writes,
        ) by {
            assert(batch[i].writes.disjoint(batch[j].writes));
        }
        assert forall|i: int, j: int|
            0 <= i < by_index.len() && 0 <= j < by_index.len() implies (#[trigger] by_index[i]).writes.disjoint(
            (#[trigger] by_index[j]).reads,
        ) by {
            assert(batch[i].writes.disjoint(batch[j].reads));
        }
    }
    if compatible(by_index) {
        assert forall|i: int, j: int| 0 <= i < j < batch.len() implies (#[trigger] batch[i]).writes.disjoint(
            (#[trigger] batch[j]).writes,
        ) by {
            assert(by_index[i].writes.disjoint(by_index[j].writes));
        }
        assert forall|i: int, j: int|
            0 <= i < batch.len() && 0 <= j < batch.len() implies (#[trigger] batch[i]).writes.disjoint(
            (#[trigger] batch[j]).reads,
        ) by {
            assert(by_index[i].writes.disjoint(by_index[j].reads));
        }
    }
}

/// Mask composition: a bundle of the needs to read `a`, to write `b` and to
/// read `c` reads the arenas of `a` and `c` and writes the arena of `b`, in
/// whatever order the three needs stand in the bundle.
pub proof fn lemma_mask_composition<T>(world: &World<T>, a: TypeKey, b: TypeKey, c: TypeKey)
    requires
        world.is_registered(a),
        world.is_registered(b),
        world.is_registered(c),
    ensures
        world.mask_of(set![a, c]) == set![world.index_of(a), world.index_of(c)],
        world.mask_of(set![b]) == set![world.index_of(b)],
        (Fetch { key: a }, FetchMut { key: b }, Fetch { key: c }).reads() == set![a, c],
        (Fetch { key: a }, FetchMut { key: b }, Fetch { key: c }).writes() == set![b],
        (Fetch { key: a }, Fetch { key: c }, FetchMut { key: b }).reads() == set![a, c],
        (Fetch { key: a }, Fetch { key: c }, FetchMut { key: b }).writes() == set![b],
        (FetchMut { key: b }, Fetch { key: a }, Fetch { key: c }).reads() == set![a, c],
        (FetchMut { key: b }, Fetch { key: a }, Fetch { key: c }).writes() == set![b],
        (FetchMut { key: b }, Fetch { key: c }, Fetch { key: a }).reads() == set![a, c],
        (FetchMut { key: b }, Fetch { key: c }, Fetch { key: a }).writes() == set![b],
        (Fetch { key: c }, Fetch { key: a }, FetchMut { key: b }).reads() == set![a, c],
        (Fetch { key: c }, Fetch { key: a }, FetchMut { key: b }).writes() == set![b],
        (Fetch { key: c }, FetchMut { key: b }, Fetch { key: a }).reads() == set![a, c],
        (Fetch { key: c }, FetchMut { key: b }, Fetch { key: a }).writes() == set![b],
{
    lemma_mask_of_one(world, a);
    lemma_mask_of_one(world, b);
    lemma_mask_of_one(world, c);
    lemma_mask_of_union(world, set![a], set![c]);
    assert(set![a].union(set![c]) =~= set![a, c]);
    assert(set![world.index_of(a)].union(set![world.index_of(c)]) =~= set![
        world.index_of(a),
        world.index_of(c),
    ]);
    let e = Set::<TypeKey>::empty();
    assert(set![a].union(e).union(set![c]) =~= set![a, c]);
    assert(set![a].union(set![c]).union(e) =~= set![a, c]);
    assert(e.union(set![a]).union(set![c]) =~= set![a, c]);
    assert(e.union(set![c]).union(set![a]) =~= set![a, c]);
    assert(set![c].union(set![a]).union(e) =~= set![a, c]);
    assert(set![c].union(e).union(set![a]) =~= set![a, c]);
    assert(e.union(set![b]).union(e) =~= set![b]);
    assert(e.union(e).union(set![b]) =~= set![b]);
    assert(set![b].union(e).union(e) =~= set![b]);
}

} // verus!
