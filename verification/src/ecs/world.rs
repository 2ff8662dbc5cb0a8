//! The world: the entities, the registry of component types, and one arena
//! for each registered type.

use std::collections::HashMap;
use vstd::prelude::*;

use super::bitset::BitSet;
use super::component::{lookup, Arena, ComponentArena, StorageKind};
use crate::utils::handle::{Handle, HandleIndex, HandlePool};

verus! {

broadcast use vstd::std_specs::hash::group_hash_axioms;

/// An entity: a handle that the world's pool hands out. It owns nothing; it
/// is the key under which the arenas hold its components.
pub type Entity = Handle;

/// The name under which a component type is registered.
pub type TypeKey = u64;

/// The entities that a world found for a mask, with a cursor that walks them.
pub struct EntityView {
    entities: Vec<Entity>,
    cursor: usize,
}

impl EntityView {
    /// All the entities of the view, in the order in which they are yielded.
    pub closed spec fn entities(&self) -> Seq<Entity> {
        self.entities@
    }

    /// How many of the entities were yielded already.
    pub closed spec fn position(&self) -> nat {
        self.cursor as nat
    }

    /// The view's invariant: the cursor is not past the end.
    pub closed spec fn wf(&self) -> bool {
        self.cursor <= self.entities.len()
    }

    /// The next entity, if one is left.
    pub fn next(&mut self) -> (r: Option<Entity>)
        requires
            old(self).wf(),
        ensures
            final(self).wf(),
            final(self).entities() == old(self).entities(),
            match r {
                Some(e) => {
                    &&& old(self).position() < old(self).entities().len()
                    &&& e == old(self).entities()[old(self).position() as int]
                    &&& final(self).position() == old(self).position() + 1
                },
                None => {
                    &&& old(self).position() == old(self).entities().len()
                    &&& final(self).position() == old(self).position()
                },
            },
    {
        if self.cursor < self.entities.len() {
            let e = self.entities[self.cursor];
            self.cursor = self.cursor + 1;
            Some(e)
        } else {
            None
        }
    }

    /// The number of entities that are left to yield.
    pub fn len(&self) -> (n: usize)
        requires
            self.wf(),
        ensures
            n == self.entities().len() - self.position(),
    {
        self.entities.len() - self.cursor
    }

    /// All the entities of the view, yielded or not.
    pub fn as_slice(&self) -> (all: &[Entity])
        ensures
            all@ == self.entities(),
    {
        self.entities.as_slice()
    }
}

/// Owns the entities, the registry of component types and the arenas. A type
/// is registered once, under a key and with a layout, and gets the next arena
/// index, which it keeps.
pub struct World<T> {
    entities: HandlePool,
    registry: HashMap<TypeKey, usize>,
    keys: Vec<TypeKey>,
    arenas: Vec<Arena<T>>,
}

impl<T> World<T> {
    /// The pool that hands out the entities.
    pub closed spec fn entities(&self) -> HandlePool {
        self.entities
    }

    /// The arena index of every registered key.
    pub closed spec fn registry(&self) -> Map<TypeKey, usize> {
        self.registry@
    }

    /// The key of every arena, by arena index.
    pub closed spec fn keys(&self) -> Seq<TypeKey> {
        self.keys@
    }

    /// The arenas, by arena index.
    pub closed spec fn arenas(&self) -> Seq<Arena<T>> {
        self.arenas@
    }

    /// Whether a component type is registered under `key`.
    pub open spec fn is_registered(&self, key: TypeKey) -> bool {
        self.registry().contains_key(key)
    }

    /// The arena index of the type registered under `key`.
    pub open spec fn index_of(&self, key: TypeKey) -> usize {
        self.registry()[key]
    }

    /// Whether `e` was created by this world and not freed since.
    pub open spec fn is_live(&self, e: Entity) -> bool {
        self.entities().is_live(e)
    }

    /// Whether the arena with index `i` exists and holds a value at `id`.
    pub open spec fn holds(&self, i: usize, id: HandleIndex) -> bool {
        i < self.arenas().len() && self.arenas()[i as int].contents().contains_key(id)
    }

    /// Whether every arena that `mask` names exists and holds a value at `id`.
    pub open spec fn holds_all(&self, mask: Set<usize>, id: HandleIndex) -> bool {
        forall|i: usize| mask.contains(i) ==> self.holds(i, id)
    }

    /// Whether every key in `keys` is registered.
    pub open spec fn knows(&self, keys: Set<TypeKey>) -> bool {
        forall|key: TypeKey| keys.contains(key) ==> self.is_registered(key)
    }

    /// The mask of the keys in `keys`: the arena indices of those that are
    /// registered.
    pub open spec fn mask_of(&self, keys: Set<TypeKey>) -> Set<usize> {
        Set::new(
            |i: usize|
                exists|key: TypeKey|
                    keys.contains(key) && self.is_registered(key) && self.index_of(key) == i,
        )
    }

    /// Whether `view` yields only live entities that have a component in
    /// every arena that `mask` names.
    pub open spec fn admits(&self, view: &EntityView, mask: Set<usize>) -> bool {
        forall|k: int|
            0 <= k < view.entities().len() ==> {
                let e = #[trigger] view.entities()[k];
                self.is_live(e) && self.holds_all(mask, e.index)
            }
    }

    /// Whether `view` is the view of `mask`, not yet walked: it yields the
    /// live entities that have a component in every arena that `mask` names,
    /// each once, in the order of their indices.
    pub open spec fn shows(&self, view: &EntityView, mask: Set<usize>) -> bool {
        &&& view.wf()
        &&& view.position() == 0
        &&& forall|a: int, b: int|
            0 <= a < b < view.entities().len() ==> view.entities()[a].index
                < view.entities()[b].index
        &&& forall|e: Entity|
            view.entities().contains(e) <==> self.is_live(e) && self.holds_all(mask, e.index)
    }

    /// Whether `self` is `before` but for the arenas that `written` names:
    /// the same entities, the same registry, and every other arena as it was.
    pub open spec fn keeps(&self, before: &World<T>, written: Set<usize>) -> bool {
        &&& self.entities() == before.entities()
        &&& self.registry() == before.registry()
        &&& self.keys() == before.keys()
        &&& self.arenas().len() == before.arenas().len()
        &&& forall|i: int|
            0 <= i < self.arenas().len() && !written.contains(i as usize)
                ==> #[trigger] self.arenas()[i] == before.arenas()[i]
    }

    /// The component of the live entity `e` in the arena of `key`.
    pub open spec fn component(&self, e: Entity, key: TypeKey) -> Option<T> {
        if self.is_live(e) && self.is_registered(key) {
            lookup(self.arenas()[self.index_of(key) as int].contents(), e.index)
        } else {
            None
        }
    }

    /// Whether `arena` holds values for entities in use only.
    pub open spec fn clean(&self, arena: Arena<T>) -> bool {
        forall|id: HandleIndex| #[trigger]
            arena.contents().contains_key(id) ==> self.entities().in_use(id)
    }

    /// The world's invariant: the registry and the keys are inverse to each
    /// other, so that every key has an arena of its own and every arena a
    /// key; the pool and the arenas are well formed; and the arenas hold
    /// values for entities in use only.
    pub open spec fn wf(&self) -> bool {
        &&& self.entities().wf()
        &&& self.keys().len() == self.arenas().len()
        &&& forall|key: TypeKey| #[trigger]
            self.registry().contains_key(key) ==> self.registry()[key] < self.keys().len()
                && self.keys()[self.registry()[key] as int] == key
        &&& forall|i: int|
            0 <= i < self.keys().len() ==> self.registry().contains_key(#[trigger] self.keys()[i])
                && self.registry()[self.keys()[i]] == i
        &&& forall|i: int| 0 <= i < self.arenas().len() ==> (#[trigger] self.arenas()[i]).wf()
        &&& forall|i: int| 0 <= i < self.arenas().len() ==> self.clean(#[trigger] self.arenas()[i])
    }

    /// Whether `self` is `before` but for the arena with index `index`,
    /// which has the same layout and the contents `contents`.
    pub open spec fn differs_at(
        &self,
        before: &World<T>,
        index: usize,
        contents: Map<HandleIndex, T>,
    ) -> bool {
        &&& self.entities() == before.entities()
        &&& self.registry() == before.registry()
        &&& self.keys() == before.keys()
        &&& self.arenas().len() == before.arenas().len()
        &&& forall|i: int|
            0 <= i < self.arenas().len() && i != index ==> #[trigger] self.arenas()[i]
                == before.arenas()[i]
        &&& index < self.arenas().len() ==> {
            &&& self.arenas()[index as int].kind() == before.arenas()[index as int].kind()
            &&& self.arenas()[index as int].contents() == contents
        }
    }

    /// A world without entities and without component types.
    pub fn new() -> (world: World<T>)
        ensures
            world.wf(),
            world.registry() == Map::<TypeKey, usize>::empty(),
            world.arenas() == Seq::<Arena<T>>::empty(),
            world.entities().versions() == Seq::<HandleIndex>::empty(),
            world.entities().free_list() == Seq::<HandleIndex>::empty(),
            forall|e: Entity| !world.is_live(e),
    {
        World {
            entities: HandlePool::new(),
            registry: HashMap::new(),
            keys: Vec::new(),
            arenas: Vec::new(),
        }
    }

    /// The number of registered component types, which is the number of arenas.
    pub fn len(&self) -> (n: usize)
        ensures
            n == self.arenas().len(),
    {
        self.arenas.len()
    }

    /// The arena index of the type registered under `key`, if one is.
    pub fn try_index(&self, key: TypeKey) -> (r: Option<usize>)
        requires
            self.wf(),
        ensures
            r == (if self.is_registered(key) {
                Some(self.index_of(key))
            } else {
                None
            }),
            r.is_some() ==> r.unwrap() < self.arenas().len(),
    {
        match self.registry.get(&key) {
            Some(index) => {
                assert(self.registry().contains_key(key));
                Some(*index)
            },
            None => None,
        }
    }

    /// The arena index of the type registered under `key`.
    pub fn index(&self, key: TypeKey) -> (index: usize)
        requires
            self.wf(),
            self.is_registered(key),
        ensures
            index == self.index_of(key),
            index < self.arenas().len(),
    {
        match self.registry.get(&key) {
            Some(index) => *index,
            None => vstd::pervasive::unreached(),
        }
    }

    /// Registers a component type under `key` with the layout `kind` and
    /// says which arena index it has. A key that is registered already keeps
    /// its index and its arena.
    pub fn register(&mut self, key: TypeKey, kind: StorageKind) -> (index: usize)
        requires
            old(self).wf(),
            old(self).is_registered(key) ==> {
                let arena = old(self).arenas()[old(self).index_of(key) as int];
                arena.kind() == kind
            },
        ensures
            final(self).wf(),
            final(self).entities() == old(self).entities(),
            final(self).is_registered(key),
            final(self).index_of(key) == index,
            final(self).arenas()[index as int].kind() == kind,
            old(self).is_registered(key) ==> {
                &&& final(self).registry() == old(self).registry()
                &&& final(self).arenas() == old(self).arenas()
            },
            !old(self).is_registered(key) ==> {
                &&& index == old(self).arenas().len()
                &&& final(self).registry() == old(self).registry().insert(key, index)
                &&& final(self).arenas().len() == old(self).arenas().len() + 1
                &&& final(self).arenas().take(index as int) == old(self).arenas()
                &&& final(self).arenas()[index as int].contents() == Map::<HandleIndex, T>::empty()
            },
    {
        match self.registry.get(&key) {
            Some(index) => {
                return *index;
            },
            None => {},
        }
        let index: usize = self.arenas.len();
        self.arenas.push(Arena::with_kind(kind));
        self.keys.push(key);
        self.registry.insert(key, index);
        proof {
            assert(self.arenas@.take(index as int) =~= old(self).arenas@);
            assert forall|k: TypeKey| #[trigger]
                self.registry().contains_key(k) implies self.registry()[k] < self.keys().len()
                && self.keys()[self.registry()[k] as int] == k by {
                if k != key {
                    assert(old(self).registry().contains_key(k));
                }
            }
            assert forall|i: int| 0 <= i < self.keys().len() implies self.registry().contains_key(
                #[trigger] self.keys()[i],
            ) && self.registry()[self.keys()[i]] == i by {
                if i < index {
                    assert(self.keys()[i] == old(self).keys()[i]);
                    assert(old(self).registry().contains_key(old(self).keys()[i]));
                }
            }
            assert forall|i: int| 0 <= i < self.arenas().len() implies {
                let arena = #[trigger] self.arenas()[i];
                arena.wf()
            } by {
                if i < index {
                    assert(self.arenas()[i] == old(self).arenas()[i]);
                }
            }
        }
        index
    }

    /// The arena of the type registered under `key`, to read.
    pub fn arena(&self, key: TypeKey) -> (arena: &Arena<T>)
        requires
            self.wf(),
            self.is_registered(key),
        ensures
            *arena == self.arenas()[self.index_of(key) as int],
            arena.wf(),
    {
        let index: usize = self.index(key);
        &self.arenas[index]
    }

    /// The arena of the type registered under `key`, to change. The world is
    /// the old one but for that arena; it is well formed again when the
    /// arena is, and holds values for entities in use only.
    pub fn arena_mut(&mut self, key: TypeKey) -> (arena: &mut Arena<T>)
        requires
            old(self).wf(),
            old(self).is_registered(key),
        ensures
            *arena == old(self).arenas()[old(self).index_of(key) as int],
            arena.wf(),
            final(self).entities() == old(self).entities(),
            final(self).registry() == old(self).registry(),
            final(self).keys() == old(self).keys(),
            final(self).arenas() == old(self).arenas().update(
                old(self).index_of(key) as int,
                *final(arena),
            ),
            final(arena).wf() && old(self).clean(*final(arena)) ==> final(self).wf(),
    {
        let index: usize = self.index(key);
        &mut self.arenas[index]
    }

    /// Whether `e` was created by this world and not freed since.
    pub fn is_alive(&self, e: Entity) -> (b: bool)
        ensures
            b == self.is_live(e),
    {
        self.entities.is_alive(e)
    }

    /// Creates an entity. It has no component. `None` when every index that
    /// an entity can have is in use.
    pub fn create(&mut self) -> (r: Option<Entity>)
        requires
            old(self).wf(),
        ensures
            final(self).wf(),
            final(self).registry() == old(self).registry(),
            final(self).arenas() == old(self).arenas(),
            r.is_some() == old(self).entities().has_room(),
            final(self).entities().versions().len() <= old(self).entities().versions().len() + 1,
            match r {
                Some(e) => {
                    &&& !old(self).is_live(e)
                    &&& final(self).is_live(e)
                    &&& forall|g: Entity| g != e ==> final(self).is_live(g) == old(self).is_live(g)
                    &&& forall|i: usize| !final(self).holds(i, e.index)
                },
                None => {
                    &&& forall|g: Entity| final(self).is_live(g) == old(self).is_live(g)
                    &&& forall|i: HandleIndex| old(self).entities().in_use(i)
                },
            },
    {
        let r = self.entities.create();
        proof {
            assert forall|key: TypeKey| #[trigger]
                self.registry().contains_key(key) implies self.registry()[key] < self.keys().len()
                && self.keys()[self.registry()[key] as int] == key by {
                assert(old(self).registry().contains_key(key));
            }
            match r {
                Some(e) => {
                    assert(!old(self).entities().in_use(e.index));
                    assert forall|i: usize| !self.holds(i, e.index) by {
                        if i < self.arenas().len() {
                            assert(old(self).clean(old(self).arenas()[i as int]));
                        }
                    }
                    assert forall|i: int| 0 <= i < self.arenas().len() implies self.clean(
                        #[trigger] self.arenas()[i],
                    ) by {
                        assert(old(self).clean(old(self).arenas()[i]));
                    }
                },
                None => {
                    assert forall|i: int| 0 <= i < self.arenas().len() implies self.clean(
                        #[trigger] self.arenas()[i],
                    ) by {
                        assert(old(self).clean(old(self).arenas()[i]));
                    }
                },
            }
        }
        r
    }

    /// The component of `e` in the arena of `key`, if `e` is live and has one.
    pub fn get(&self, e: Entity, key: TypeKey) -> (r: Option<&T>)
        requires
            self.wf(),
            self.is_registered(key),
        ensures
            match r {
                Some(v) => self.component(e, key) == Some(*v),
                None => self.component(e, key).is_none(),
            },
    {
        if self.entities.is_alive(e) {
            let index: usize = self.index(key);
            self.arenas[index].get(e.index)
        } else {
            None
        }
    }

    /// Whether `e` is live and has a component in the arena of `key`.
    pub fn has(&self, e: Entity, key: TypeKey) -> (b: bool)
        requires
            self.wf(),
            self.is_registered(key),
        ensures
            b == self.component(e, key).is_some(),
    {
        self.get(e, key).is_some()
    }

    /// Gives the live entity `e` the component `v` in the arena of `key` and
    /// hands back the one that it had. An entity that is not live gets
    /// nothing: the world stays as it is.
    pub fn insert(&mut self, e: Entity, key: TypeKey, v: T) -> (prior: Option<T>)
        requires
            old(self).wf(),
            old(self).is_registered(key),
        ensures
            final(self).wf(),
            prior == old(self).component(e, key),
            final(self).differs_at(
                old(self),
                old(self).index_of(key),
                if old(self).is_live(e) {
                    old(self).arenas()[old(self).index_of(key) as int].contents().insert(
                        e.index,
                        v,
                    )
                } else {
                    old(self).arenas()[old(self).index_of(key) as int].contents()
                },
            ),
    {
        if self.entities.is_alive(e) {
            let index: usize = self.index(key);
            let prior = self.arenas[index].insert(e.index, v);
            proof {
                assert forall|i: int| 0 <= i < self.arenas().len() implies self.clean(
                    #[trigger] self.arenas()[i],
                ) by {
                    assert(old(self).clean(old(self).arenas()[i]));
                }
            }
            prior
        } else {
            None
        }
    }

    /// Takes the component of the live entity `e` out of the arena of `key`
    /// and hands it back.
    pub fn remove(&mut self, e: Entity, key: TypeKey) -> (prior: Option<T>)
        requires
            old(self).wf(),
            old(self).is_registered(key),
        ensures
            final(self).wf(),
            prior == old(self).component(e, key),
            final(self).differs_at(
                old(self),
                old(self).index_of(key),
                if old(self).is_live(e) {
                    old(self).arenas()[old(self).index_of(key) as int].contents().remove(e.index)
                } else {
                    old(self).arenas()[old(self).index_of(key) as int].contents()
                },
            ),
    {
        if self.entities.is_alive(e) {
            let index: usize = self.index(key);
            let prior = self.arenas[index].remove(e.index);
            proof {
                assert forall|i: int| 0 <= i < self.arenas().len() implies self.clean(
                    #[trigger] self.arenas()[i],
                ) by {
                    assert(old(self).clean(old(self).arenas()[i]));
                }
            }
            prior
        } else {
            None
        }
    }

    /// Frees the entity `e`, if it is live, and takes its components out of
    /// every arena. Says whether it was live.
    pub fn free(&mut self, e: Entity) -> (was_live: bool)
        requires
            old(self).wf(),
        ensures
            final(self).wf(),
            was_live == old(self).is_live(e),
            final(self).registry() == old(self).registry(),
            final(self).keys() == old(self).keys(),
            final(self).entities().versions().len() == old(self).entities().versions().len(),
            forall|g: Entity| final(self).is_live(g) == (old(self).is_live(g) && g != e),
            final(self).arenas().len() == old(self).arenas().len(),
            forall|i: int|
                0 <= i < old(self).arenas().len() ==> {
                    &&& (#[trigger] final(self).arenas()[i]).kind() == old(self).arenas()[i].kind()
                    &&& final(self).arenas()[i].contents() == if was_live {
                        old(self).arenas()[i].contents().remove(e.index)
                    } else {
                        old(self).arenas()[i].contents()
                    }
                },
    {
        if !self.entities.is_alive(e) {
            return false;
        }
        let n: usize = self.arenas.len();
        let mut i: usize = 0;
        while i < n
            invariant
                i <= n,
                n == self.arenas().len(),
                n == old(self).arenas().len(),
                self.entities() == old(self).entities(),
                self.registry() == old(self).registry(),
                self.keys() == old(self).keys(),
                forall|j: int| 0 <= j < n ==> (#[trigger] self.arenas()[j]).wf(),
                forall|j: int|
                    0 <= j < n ==> {
                        let arena = #[trigger] self.arenas()[j];
                        arena.kind() == old(self).arenas()[j].kind()
                    },
                forall|j: int|
                    0 <= j < i ==> {
                        let arena = #[trigger] self.arenas()[j];
                        arena.contents() == old(self).arenas()[j].contents().remove(e.index)
                    },
                forall|j: int| i <= j < n ==> #[trigger] self.arenas()[j] == old(self).arenas()[j],
            decreases n - i,
        {
            self.arenas[i].remove(e.index);
            i = i + 1;
        }
        self.entities.free(e);
        proof {
            assert forall|j: int| 0 <= j < self.arenas().len() implies self.clean(
                #[trigger] self.arenas()[j],
            ) by {
                assert(old(self).clean(old(self).arenas()[j]));
            }
            assert forall|key: TypeKey| #[trigger]
                self.registry().contains_key(key) implies self.registry()[key] < self.keys().len()
                && self.keys()[self.registry()[key] as int] == key by {
                assert(old(self).registry().contains_key(key));
            }
        }
        true
    }

    /// Whether every arena that `wanted` names exists and holds a value at `id`.
    fn holds_every(&self, wanted: &Vec<usize>, id: HandleIndex) -> (b: bool)
        requires
            self.wf(),
        ensures
            b == forall|k: int| 0 <= k < wanted.len() ==> self.holds(#[trigger] wanted[k], id),
    {
        let mut k: usize = 0;
        while k < wanted.len()
            invariant
                self.wf(),
                k <= wanted.len(),
                forall|j: int| 0 <= j < k ==> self.holds(#[trigger] wanted[j], id),
            decreases wanted.len() - k,
        {
            let index: usize = wanted[k];
            if index >= self.arenas.len() || !self.arenas[index].contains(id) {
                assert(!self.holds(wanted[k as int], id));
                return false;
            }
            k = k + 1;
        }
        true
    }

    /// The live entities that have a component in every arena that `mask`
    /// names, in the order of their indices. A mask that names an arena
    /// which does not exist finds no entity.
    pub fn view(&self, mask: &BitSet) -> (view: EntityView)
        requires
            self.wf(),
        ensures
            view.wf(),
            view.position() == 0,
            forall|a: int, b: int|
                0 <= a < b < view.entities().len() ==> view.entities()[a].index
                    < view.entities()[b].index,
            forall|e: Entity|
                view.entities().contains(e) <==> self.is_live(e) && self.holds_all(
                    mask@,
                    e.index,
                ),
            self.admits(&view, mask@),
            self.shows(&view, mask@),
    {
        let wanted: Vec<usize> = mask.iter();
        let n: usize = self.entities.size();
        let mut found: Vec<Entity> = Vec::new();
        let mut i: usize = 0;
        while i < n
            invariant
                self.wf(),
                i <= n,
                n == self.entities().versions().len(),
                n <= HandleIndex::MAX + 1,
                forall|x: usize| mask@.contains(x) <==> wanted@.contains(x),
                forall|a: int, b: int| 0 <= a < b < found.len() ==> found[a].index < found[b].index,
                forall|a: int|
                    0 <= a < found.len() ==> {
                        let e = #[trigger] found[a];
                        e.index < i && self.is_live(e) && self.holds_all(mask@, e.index)
                    },
                forall|e: Entity|
                    e.index < i && self.is_live(e) && self.holds_all(mask@, e.index)
                        ==> found@.contains(e),
            decreases n - i,
        {
            let id: HandleIndex = i as HandleIndex;
            let ghost before = found@;
            let at = self.entities.at(id);
            let mut chosen: bool = false;
            match at {
                Some(e) => {
                    if self.holds_every(&wanted, id) {
                        found.push(e);
                        chosen = true;
                    }
                    proof {
                        if chosen {
                            assert forall|x: usize| mask@.contains(x) implies self.holds(x, id) by {
                                let k = choose|k: int| 0 <= k < wanted.len() && wanted[k] == x;
                                assert(self.holds(wanted[k], id));
                            }
                        } else {
                            let k = choose|k: int|
                                0 <= k < wanted.len() && !self.holds(#[trigger] wanted[k], id);
                            assert(wanted@.contains(wanted[k]));
                            assert(mask@.contains(wanted[k]));
                            assert(!self.holds_all(mask@, id));
                        }
                    }
                },
                None => {},
            }
            proof {
                assert forall|e: Entity|
                    e.index < i + 1 && self.is_live(e) && self.holds_all(
                        mask@,
                        e.index,
                    ) implies found@.contains(e) by {
                    if e.index < i {
                        let a = choose|a: int| 0 <= a < before.len() && before[a] == e;
                        assert(found@[a] == e);
                    } else {
                        assert(chosen);
                        assert(at == Some(e));
                        assert(found@[found.len() - 1] == e);
                    }
                }
            }
            i = i + 1;
        }
        proof {
            assert forall|e: Entity| found@.contains(e) implies self.is_live(e) && self.holds_all(
                mask@,
                e.index,
            ) by {
                let a = choose|a: int| 0 <= a < found.len() && found[a] == e;
                assert(self.is_live(found[a]));
            }
        }
        let view = EntityView { entities: found, cursor: 0 };
        proof {
            assert forall|k: int| 0 <= k < view.entities().len() implies {
                let e = #[trigger] view.entities()[k];
                self.is_live(e) && self.holds_all(mask@, e.index)
            } by {
                assert(view.entities().contains(view.entities()[k]));
            }
        }
        view
    }
}

/// A world knows every key of a union exactly when it knows every key of
/// both parts.
pub proof fn lemma_knows_union<T>(world: &World<T>, a: Set<TypeKey>, b: Set<TypeKey>)
    ensures
        world.knows(a.union(b)) <==> world.knows(a) && world.knows(b),
{
    if world.knows(a.union(b)) {
        assert forall|key: TypeKey| a.contains(key) implies world.is_registered(key) by {
            assert(a.union(b).contains(key));
        }
        assert forall|key: TypeKey| b.contains(key) implies world.is_registered(key) by {
            assert(a.union(b).contains(key));
        }
    }
}

/// The mask of no key is empty.
pub proof fn lemma_mask_of_empty<T>(world: &World<T>)
    ensures
        world.mask_of(Set::<TypeKey>::empty()) == Set::<usize>::empty(),
{
    assert(world.mask_of(Set::<TypeKey>::empty()) =~= Set::<usize>::empty());
}

/// The mask of one registered key is its arena index.
pub proof fn lemma_mask_of_one<T>(world: &World<T>, key: TypeKey)
    requires
        world.is_registered(key),
    ensures
        world.mask_of(set![key]) == set![world.index_of(key)],
{
    assert(set![key].contains(key));
    assert(world.mask_of(set![key]) =~= set![world.index_of(key)]);
}

/// The mask of a union of keys is the union of the masks.
pub proof fn lemma_mask_of_union<T>(world: &World<T>, a: Set<TypeKey>, b: Set<TypeKey>)
    ensures
        world.mask_of(a.union(b)) == world.mask_of(a).union(world.mask_of(b)),
{
    assert forall|i: usize| world.mask_of(a.union(b)).contains(i) implies world.mask_of(a).union(
        world.mask_of(b),
    ).contains(i) by {
        let key = choose|key: TypeKey|
            a.union(b).contains(key) && world.is_registered(key) && world.index_of(key) == i;
        if a.contains(key) {
            assert(world.mask_of(a).contains(i));
        } else {
            assert(world.mask_of(b).contains(i));
        }
    }
    assert forall|i: usize| world.mask_of(a).union(world.mask_of(b)).contains(
        i,
    ) implies world.mask_of(a.union(b)).contains(i) by {
        if world.mask_of(a).contains(i) {
            let key = choose|key: TypeKey|
                a.contains(key) && world.is_registered(key) && world.index_of(key) == i;
            assert(a.union(b).contains(key));
        } else {
            let key = choose|key: TypeKey|
                b.contains(key) && world.is_registered(key) && world.index_of(key) == i;
            assert(a.union(b).contains(key));
        }
    }
    assert(world.mask_of(a.union(b)) =~= world.mask_of(a).union(world.mask_of(b)));
}

/// Two sets of registered keys share a key exactly when their masks share an
/// arena index: distinct types never share an arena.
pub proof fn lemma_mask_of_disjoint<T>(world: &World<T>, a: Set<TypeKey>, b: Set<TypeKey>)
    requires
        world.wf(),
        world.knows(a),
        world.knows(b),
    ensures
        world.mask_of(a).disjoint(world.mask_of(b)) <==> a.disjoint(b),
{
    if !a.disjoint(b) {
        let key = choose|key: TypeKey| a.contains(key) && b.contains(key);
        assert(world.mask_of(a).contains(world.index_of(key)));
        assert(world.mask_of(b).contains(world.index_of(key)));
    }
    if !world.mask_of(a).disjoint(world.mask_of(b)) {
        let i = choose|i: usize| world.mask_of(a).contains(i) && world.mask_of(b).contains(i);
        let ka = choose|key: TypeKey|
            a.contains(key) && world.is_registered(key) && world.index_of(key) == i;
        let kb = choose|key: TypeKey|
            b.contains(key) && world.is_registered(key) && world.index_of(key) == i;
        assert(world.registry().contains_key(ka));
        assert(world.registry().contains_key(kb));
        assert(ka == kb);
    }
}

} // verus!
