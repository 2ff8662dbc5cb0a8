//! Component storage: arenas that map an entity index to at most one value.

use std::collections::HashMap;
use vstd::prelude::*;

use super::bitset::BitSet;
use crate::utils::handle::HandleIndex;

verus! {

broadcast use vstd::std_specs::hash::group_hash_axioms;

/// What an arena with the contents `m` holds at `id`.
pub open spec fn lookup<T>(m: Map<HandleIndex, T>, id: HandleIndex) -> Option<T> {
    if m.contains_key(id) {
        Some(m[id])
    } else {
        None
    }
}

/// Round trip: what `insert` stores at an index is what `get` finds there
/// afterwards, the other indices are as they were, and after `remove` `get`
/// finds nothing there.
pub proof fn lemma_round_trip<T>(m: Map<HandleIndex, T>, id: HandleIndex, v: T)
    ensures
        lookup(m.insert(id, v), id) == Some(v),
        forall|other: HandleIndex|
            other != id ==> lookup(m.insert(id, v), other) == lookup(m, other),
        lookup(m.remove(id), id) == None::<T>,
        lookup(m.insert(id, v).remove(id), id) == None::<T>,
{
}

/// Overwrite: a second `insert` at an index hands back the value of the
/// first, and `get` then finds the value of the second; the arena is as if
/// the first had not happened.
pub proof fn lemma_overwrite<T>(m: Map<HandleIndex, T>, id: HandleIndex, v1: T, v2: T)
    ensures
        lookup(m.insert(id, v1), id) == Some(v1),
        lookup(m.insert(id, v1).insert(id, v2), id) == Some(v2),
        m.insert(id, v1).insert(id, v2) == m.insert(id, v2),
{
    assert(m.insert(id, v1).insert(id, v2) =~= m.insert(id, v2));
}

/// What every arena offers, whatever its layout: a partial map from entity
/// index to value.
pub trait ComponentArena<T>: Sized {
    /// The values held, by entity index.
    spec fn contents(&self) -> Map<HandleIndex, T>;

    /// The layout's own invariant.
    spec fn wf(&self) -> bool;

    /// An arena that holds nothing.
    fn new() -> (arena: Self)
        ensures
            arena.wf(),
            arena.contents() == Map::<HandleIndex, T>::empty(),
    ;

    /// The value at `id`, if one is present.
    fn get(&self, id: HandleIndex) -> (r: Option<&T>)
        requires
            self.wf(),
        ensures
            match r {
                Some(v) => lookup(self.contents(), id) == Some(*v),
                None => lookup(self.contents(), id).is_none(),
            },
    ;

    /// The value at `id`, for a caller who knows that one is present.
    fn get_unchecked(&self, id: HandleIndex) -> (r: &T)
        requires
            self.wf(),
            self.contents().contains_key(id),
        ensures
            *r == self.contents()[id],
    ;

    /// The value at `id`, to be changed in place, if one is present.
    fn get_mut(&mut self, id: HandleIndex) -> (r: Option<&mut T>)
        requires
            old(self).wf(),
        ensures
            final(self).wf(),
            match r {
                Some(slot) => {
                    &&& old(self).contents().contains_key(id)
                    &&& *slot == old(self).contents()[id]
                    &&& final(self).contents() == old(self).contents().insert(id, *final(slot))
                },
                None => {
                    &&& !old(self).contents().contains_key(id)
                    &&& final(self).contents() == old(self).contents()
                },
            },
    ;

    /// The value at `id`, to be changed in place, for a caller who knows that
    /// one is present.
    fn get_unchecked_mut(&mut self, id: HandleIndex) -> (r: &mut T)
        requires
            old(self).wf(),
            old(self).contents().contains_key(id),
        ensures
            final(self).wf(),
            *r == old(self).contents()[id],
            final(self).contents() == old(self).contents().insert(id, *final(r)),
    ;

    /// Stores `v` at `id` and hands back the value that was there.
    fn insert(&mut self, id: HandleIndex, v: T) -> (prior: Option<T>)
        requires
            old(self).wf(),
        ensures
            final(self).wf(),
            final(self).contents() == old(self).contents().insert(id, v),
            prior == lookup(old(self).contents(), id),
    ;

    /// Takes the value at `id` out of the arena and hands it back.
    fn remove(&mut self, id: HandleIndex) -> (prior: Option<T>)
        requires
            old(self).wf(),
        ensures
            final(self).wf(),
            final(self).contents() == old(self).contents().remove(id),
            prior == lookup(old(self).contents(), id),
    ;
}

/// Map-backed storage for components that few entities have.
pub struct HashMapArena<T> {
    values: HashMap<HandleIndex, T>,
}

/// `HashMap::get_mut` on an integer key: the slot of `id` if the map holds
/// one, through which the caller may replace the value; every other entry stays.
#[verifier::external_body]
fn map_get_mut<T>(m: &mut HashMap<HandleIndex, T>, id: HandleIndex) -> (r: Option<&mut T>)
    ensures
        match r {
            Some(slot) => {
                &&& old(m)@.contains_key(id)
                &&& *slot == old(m)@[id]
                &&& final(m)@ == old(m)@.insert(id, *final(slot))
            },
            None => !old(m)@.contains_key(id) && final(m)@ == old(m)@,
        },
{
    m.get_mut(&id)
}

impl<T> ComponentArena<T> for HashMapArena<T> {
    closed spec fn contents(&self) -> Map<HandleIndex, T> {
        self.values@
    }

    open spec fn wf(&self) -> bool {
        true
    }

    fn new() -> (arena: Self) {
        HashMapArena { values: HashMap::new() }
    }

    fn get(&self, id: HandleIndex) -> (r: Option<&T>) {
        self.values.get(&id)
    }

    fn get_unchecked(&self, id: HandleIndex) -> (r: &T) {
        match self.values.get(&id) {
            Some(v) => v,
            None => vstd::pervasive::unreached(),
        }
    }

    fn get_mut(&mut self, id: HandleIndex) -> (r: Option<&mut T>) {
        map_get_mut(&mut self.values, id)
    }

    fn get_unchecked_mut(&mut self, id: HandleIndex) -> (r: &mut T) {
        match map_get_mut(&mut self.values, id) {
            Some(v) => v,
            None => vstd::pervasive::unreached(),
        }
    }

    fn insert(&mut self, id: HandleIndex, v: T) -> (prior: Option<T>) {
        self.values.insert(id, v)
    }

    fn remove(&mut self, id: HandleIndex) -> (prior: Option<T>) {
        self.values.remove(&id)
    }
}

/// The contents that a vector of slots stands for: the occupied slots, by index.
spec fn slots_contents<T>(values: Seq<Option<T>>) -> Map<HandleIndex, T> {
    Map::new(
        |id: HandleIndex| (id as int) < values.len() && values[id as int].is_some(),
        |id: HandleIndex| values[id as int].unwrap(),
    )
}

/// The dense layout's invariant: the mask names exactly the occupied slots,
/// and every slot has an index that an entity can have.
spec fn slots_wf<T>(mask: Set<usize>, values: Seq<Option<T>>) -> bool {
    &&& values.len() <= HandleIndex::MAX + 1
    &&& forall|i: usize| mask.contains(i) <==> (i < values.len() && values[i as int].is_some())
}

/// Replacing the value of an occupied slot keeps the invariant and changes the
/// contents at that index alone.
proof fn lemma_slot_replaced<T>(mask: Set<usize>, values: Seq<Option<T>>, id: HandleIndex)
    requires
        slots_wf(mask, values),
        mask.contains(id as usize),
    ensures
        forall|o: Option<T>|
            o.is_some() ==> {
                let after = #[trigger] values.update(id as int, o);
                &&& slots_wf(mask, after)
                &&& slots_contents(after) == slots_contents(values).insert(id, o.unwrap())
            },
{
    assert forall|o: Option<T>| o.is_some() implies {
        let after = #[trigger] values.update(id as int, o);
        &&& slots_wf(mask, after)
        &&& slots_contents(after) == slots_contents(values).insert(id, o.unwrap())
    } by {
        let after = values.update(id as int, o);
        assert(slots_contents(after) =~= slots_contents(values).insert(id, o.unwrap()));
    }
}

/// Array-backed storage for components that most entities have. A slot is
/// either empty or holds a value; the presence mask names the slots that hold one.
pub struct VecArena<T> {
    mask: BitSet,
    values: Vec<Option<T>>,
}

impl<T> VecArena<T> {
    /// The positions that the presence mask names.
    pub closed spec fn present(&self) -> Set<usize> {
        self.mask@
    }

    /// The number of slots of the backing array, empty ones included.
    pub closed spec fn slots(&self) -> nat {
        self.values@.len()
    }

    /// The number of slots of the backing array, empty ones included.
    pub fn capacity(&self) -> (n: usize)
        ensures
            n == self.slots(),
    {
        self.values.len()
    }

    /// The presence mask.
    pub fn mask(&self) -> (m: &BitSet)
        ensures
            m@ == self.present(),
    {
        &self.mask
    }

    /// Takes every value out of the arena. The walk follows the presence
    /// mask: the value of each slot that the mask names is dropped, then the
    /// slots and the mask are given up.
    pub fn clear(&mut self)
        requires
            old(self).wf(),
        ensures
            final(self).wf(),
            final(self).contents() == Map::<HandleIndex, T>::empty(),
            final(self).present() == Set::<usize>::empty(),
            final(self).slots() == 0,
    {
        let present: Vec<usize> = self.mask.iter();
        proof {
            assert forall|j: int| 0 <= j < present.len() implies #[trigger] present[j]
                < self.values.len() by {
                assert(present@.contains(present[j]));
                assert(self.mask@.contains(present[j]));
            }
        }
        let mut k: usize = 0;
        while k < present.len()
            invariant
                k <= present.len(),
                self.values.len() == old(self).values.len(),
                forall|j: int| 0 <= j < present.len() ==> #[trigger] present[j] < self.values.len(),
            decreases present.len() - k,
        {
            let at: usize = present[k];
            self.values[at].take();
            k = k + 1;
        }
        self.values.clear();
        self.mask.clear();
        assert(self.contents() =~= Map::<HandleIndex, T>::empty());
    }

    /// The presence mask of a well-formed dense arena names exactly the
    /// indices at which `get` finds a value. Every operation keeps the arena
    /// well formed, so this holds after any sequence of them.
    pub proof fn lemma_mask_matches_contents(&self)
        requires
            self.wf(),
        ensures
            forall|i: usize|
                self.present().contains(i) <==> i <= HandleIndex::MAX && lookup(
                    self.contents(),
                    i as HandleIndex,
                ).is_some(),
    {
    }
}

impl<T> ComponentArena<T> for VecArena<T> {
    closed spec fn contents(&self) -> Map<HandleIndex, T> {
        slots_contents(self.values@)
    }

    closed spec fn wf(&self) -> bool {
        slots_wf(self.mask@, self.values@)
    }

    fn new() -> (arena: Self)
        ensures
            arena.slots() == 0,
    {
        let arena = VecArena { mask: BitSet::new(), values: Vec::new() };
        assert(arena.contents() =~= Map::<HandleIndex, T>::empty());
        arena
    }

    fn get(&self, id: HandleIndex) -> (r: Option<&T>) {
        if self.mask.contains(id as usize) {
            self.values[id as usize].as_ref()
        } else {
            None
        }
    }

    fn get_unchecked(&self, id: HandleIndex) -> (r: &T) {
        match &self.values[id as usize] {
            Some(v) => v,
            None => vstd::pervasive::unreached(),
        }
    }

    fn get_mut(&mut self, id: HandleIndex) -> (r: Option<&mut T>)
        ensures
            final(self).slots() == old(self).slots(),
    {
        if self.mask.contains(id as usize) {
            proof {
                lemma_slot_replaced(self.mask@, self.values@, id);
            }
            self.values[id as usize].as_mut()
        } else {
            None
        }
    }

    fn get_unchecked_mut(&mut self, id: HandleIndex) -> (r: &mut T)
        ensures
            final(self).slots() == old(self).slots(),
    {
        proof {
            lemma_slot_replaced(self.mask@, self.values@, id);
        }
        match self.values[id as usize].as_mut() {
            Some(v) => v,
            None => vstd::pervasive::unreached(),
        }
    }

    /// The backing array grows as far as `id` needs, by empty slots, and not
    /// further.
    fn insert(&mut self, id: HandleIndex, v: T) -> (prior: Option<T>)
        ensures
            final(self).slots() == if id < old(self).slots() {
                old(self).slots()
            } else {
                (id + 1) as nat
            },
    {
        let idx: usize = id as usize;
        while self.values.len() <= idx
            invariant
                idx == id,
                self.wf(),
                self.mask == old(self).mask,
                self.contents() == old(self).contents(),
                self.slots() >= old(self).slots(),
                self.slots() == old(self).slots() || self.slots() <= idx + 1,
            decreases idx + 1 - self.values.len(),
        {
            self.values.push(None);
            proof {
                assert(self.contents() =~= old(self).contents());
            }
        }
        let ghost grown = *self;
        let prior = if self.mask.contains(idx) {
            self.values[idx].take()
        } else {
            self.mask.insert(idx);
            None
        };
        self.values[idx] = Some(v);
        proof {
            assert(self.contents() =~= grown.contents().insert(id, v));
        }
        prior
    }

    /// The backing array keeps its slots.
    fn remove(&mut self, id: HandleIndex) -> (prior: Option<T>)
        ensures
            final(self).slots() == old(self).slots(),
    {
        let idx: usize = id as usize;
        if self.mask.contains(idx) {
            self.mask.remove(idx);
            let prior = self.values[idx].take();
            proof {
                assert(self.contents() =~= old(self).contents().remove(id));
            }
            prior
        } else {
            proof {
                assert(self.contents() =~= old(self).contents().remove(id));
            }
            None
        }
    }
}

/// The layout of an arena.
#[derive(Debug, Clone, Copy, PartialEq, Eq, Structural)]
pub enum StorageKind {
    /// Array-backed: for components that most entities have.
    Dense,
    /// Map-backed: for components that few entities have.
    Sparse,
}

/// An arena of either layout. The layout is chosen when the arena is made
/// and stays; what the arena offers does not depend on it.
pub enum Arena<T> {
    Dense(VecArena<T>),
    Sparse(HashMapArena<T>),
}

impl<T> Arena<T> {
    /// The layout of the arena.
    pub open spec fn kind(&self) -> StorageKind {
        match self {
            Arena::Dense(_) => StorageKind::Dense,
            Arena::Sparse(_) => StorageKind::Sparse,
        }
    }

    /// An arena of the layout `kind` that holds nothing.
    pub fn with_kind(kind: StorageKind) -> (arena: Self)
        ensures
            arena.wf(),
            arena.kind() == kind,
            arena.contents() == Map::<HandleIndex, T>::empty(),
    {
        match kind {
            StorageKind::Dense => Arena::Dense(VecArena::new()),
            StorageKind::Sparse => Arena::Sparse(HashMapArena::new()),
        }
    }

    /// The layout of the arena.
    pub fn storage(&self) -> (kind: StorageKind)
        ensures
            kind == self.kind(),
    {
        match self {
            Arena::Dense(_) => StorageKind::Dense,
            Arena::Sparse(_) => StorageKind::Sparse,
        }
    }

    /// Whether a value is present at `id`.
    pub fn contains(&self, id: HandleIndex) -> (b: bool)
        requires
            self.wf(),
        ensures
            b == self.contents().contains_key(id),
    {
        self.get(id).is_some()
    }
}

impl<T> ComponentArena<T> for Arena<T> {
    open spec fn contents(&self) -> Map<HandleIndex, T> {
        match self {
            Arena::Dense(arena) => arena.contents(),
            Arena::Sparse(arena) => arena.contents(),
        }
    }

    open spec fn wf(&self) -> bool {
        match self {
            Arena::Dense(arena) => arena.wf(),
            Arena::Sparse(arena) => arena.wf(),
        }
    }

    /// An empty arena of the sparse layout.
    fn new() -> (arena: Self)
        ensures
            arena.kind() == StorageKind::Sparse,
    {
        Arena::Sparse(HashMapArena::new())
    }

    fn get(&self, id: HandleIndex) -> (r: Option<&T>) {
        match self {
            Arena::Dense(arena) => arena.get(id),
            Arena::Sparse(arena) => arena.get(id),
        }
    }

    fn get_unchecked(&self, id: HandleIndex) -> (r: &T) {
        match self {
            Arena::Dense(arena) => arena.get_unchecked(id),
            Arena::Sparse(arena) => arena.get_unchecked(id),
        }
    }

    fn get_mut(&mut self, id: HandleIndex) -> (r: Option<&mut T>)
        ensures
            final(self).kind() == old(self).kind(),
    {
        match self {
            Arena::Dense(arena) => arena.get_mut(id),
            Arena::Sparse(arena) => arena.get_mut(id),
        }
    }

    fn get_unchecked_mut(&mut self, id: HandleIndex) -> (r: &mut T)
        ensures
            final(self).kind() == old(self).kind(),
    {
        match self {
            Arena::Dense(arena) => arena.get_unchecked_mut(id),
            Arena::Sparse(arena) => arena.get_unchecked_mut(id),
        }
    }

    fn insert(&mut self, id: HandleIndex, v: T) -> (prior: Option<T>)
        ensures
            final(self).kind() == old(self).kind(),
    {
        match self {
            Arena::Dense(arena) => arena.insert(id, v),
            Arena::Sparse(arena) => arena.insert(id, v),
        }
    }

    fn remove(&mut self, id: HandleIndex) -> (prior: Option<T>)
        ensures
            final(self).kind() == old(self).kind(),
    {
        match self {
            Arena::Dense(arena) => arena.remove(id),
            Arena::Sparse(arena) => arena.remove(id),
        }
    }
}

} // verus!
