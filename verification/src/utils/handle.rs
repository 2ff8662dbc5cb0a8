//! Handles: an index with a version, which tells one use of the index from the next.

use vstd::prelude::*;

verus! {

/// The index part of a handle, and the position of an entity in every arena.
pub type HandleIndex = u32;

/// An index with the version under which it was handed out. A handle is
/// live from the `create` that returns it to the `free` that takes it.
#[derive(Debug, Clone, Copy, PartialEq, Eq, Hash, Structural)]
pub struct Handle {
    pub index: HandleIndex,
    pub version: HandleIndex,
}

impl Handle {
    /// The handle with the given index and version.
    pub fn new(index: HandleIndex, version: HandleIndex) -> (h: Handle)
        ensures
            h == (Handle { index, version }),
    {
        Handle { index, version }
    }

    /// The handle that no pool ever hands out.
    pub fn nil() -> (h: Handle)
        ensures
            h == (Handle { index: 0, version: 0 }),
    {
        Handle { index: 0, version: 0 }
    }

    /// Whether the handle is another than `nil`.
    pub fn is_valid(&self) -> (b: bool)
        ensures
            b == (*self != (Handle { index: 0, version: 0 })),
    {
        self.index > 0 || self.version > 0
    }

    /// The index of the handle.
    pub fn index(&self) -> (index: HandleIndex)
        ensures
            index == self.index,
    {
        self.index
    }

    /// The version of the handle.
    pub fn version(&self) -> (version: HandleIndex)
        ensures
            version == self.version,
    {
        self.version
    }
}

/// The version that follows `version`: one more, and zero after the largest.
pub open spec fn next_version(version: HandleIndex) -> HandleIndex {
    if version == HandleIndex::MAX {
        0
    } else {
        (version + 1) as HandleIndex
    }
}

/// Hands out handles and takes them back. An index that was taken back is
/// handed out again under its next version, so that a handle that was freed
/// is never live again. The version of an index in use is odd.
pub struct HandlePool {
    versions: Vec<HandleIndex>,
    frees: Vec<HandleIndex>,
}

impl HandlePool {
    /// The current version of every index that was ever handed out.
    pub closed spec fn versions(&self) -> Seq<HandleIndex> {
        self.versions@
    }

    /// The indices that were taken back and not handed out again, the one
    /// that `create` takes next at the end.
    pub closed spec fn free_list(&self) -> Seq<HandleIndex> {
        self.frees@
    }

    /// Whether the index `index` is in use: handed out and not taken back since.
    pub open spec fn in_use(&self, index: HandleIndex) -> bool {
        index < self.versions().len() && self.versions()[index as int] % 2 == 1
    }

    /// Whether `h` was handed out and not taken back since.
    pub open spec fn is_live(&self, h: Handle) -> bool {
        self.in_use(h.index) && self.versions()[h.index as int] == h.version
    }

    /// Whether the pool has an index to hand out: one that was taken back,
    /// or one that was never handed out.
    pub open spec fn has_room(&self) -> bool {
        self.free_list().len() > 0 || self.versions().len() <= HandleIndex::MAX
    }

    /// The pool's invariant: the indices fit a handle, and the free list
    /// names the indices that were handed out and are not in use, each once.
    pub closed spec fn wf(&self) -> bool {
        &&& self.versions@.len() <= HandleIndex::MAX + 1
        &&& self.frees@.no_duplicates()
        &&& forall|k: int|
            0 <= k < self.frees@.len() ==> {
                let index = #[trigger] self.frees@[k];
                index < self.versions@.len() && self.versions@[index as int] % 2 == 0
            }
        &&& forall|i: int|
            0 <= i < self.versions@.len() && (#[trigger] self.versions@[i]) % 2 == 0
                ==> self.frees@.contains(i as HandleIndex)
    }

    /// A pool that has handed out nothing.
    pub fn new() -> (pool: HandlePool)
        ensures
            pool.wf(),
            pool.versions() == Seq::<HandleIndex>::empty(),
            pool.free_list() == Seq::<HandleIndex>::empty(),
    {
        HandlePool { versions: Vec::new(), frees: Vec::new() }
    }

    /// The number of indices that were ever handed out.
    pub fn size(&self) -> (n: usize)
        requires
            self.wf(),
        ensures
            n == self.versions().len(),
            n <= HandleIndex::MAX + 1,
    {
        self.versions.len()
    }

    /// Whether `h` was handed out and not taken back since.
    pub fn is_alive(&self, h: Handle) -> (b: bool)
        ensures
            b == self.is_live(h),
    {
        let index: usize = h.index as usize;
        index < self.versions.len() && self.versions[index] == h.version && h.version % 2 == 1
    }

    /// The live handle with the index `index`, if there is one.
    pub fn at(&self, index: HandleIndex) -> (r: Option<Handle>)
        ensures
            match r {
                Some(h) => h.index == index && self.is_live(h),
                None => forall|h: Handle| h.index == index ==> !self.is_live(h),
            },
    {
        let at: usize = index as usize;
        if at < self.versions.len() && self.versions[at] % 2 == 1 {
            Some(Handle { index, version: self.versions[at] })
        } else {
            None
        }
    }

    /// Hands out a handle: the index that was taken back last, under its
    /// next version, or else a new index under version one. `None` when
    /// every index that a handle can hold is in use.
    pub fn create(&mut self) -> (r: Option<Handle>)
        requires
            old(self).wf(),
        ensures
            final(self).wf(),
            r.is_some() == old(self).has_room(),
            final(self).versions().len() >= old(self).versions().len(),
            final(self).versions().len() <= old(self).versions().len() + 1,
            match r {
                Some(h) => {
                    &&& !old(self).is_live(h)
                    &&& final(self).is_live(h)
                    &&& forall|g: Handle| g != h ==> final(self).is_live(g) == old(self).is_live(g)
                    &&& !old(self).in_use(h.index)
                    &&& forall|i: HandleIndex|
                        final(self).in_use(i) == (i == h.index || old(self).in_use(i))
                    &&& if old(self).free_list().len() > 0 {
                        &&& h.index == old(self).free_list().last()
                        &&& h.version == next_version(old(self).versions()[h.index as int])
                        &&& final(self).free_list() == old(self).free_list().drop_last()
                        &&& final(self).versions() == old(self).versions().update(
                            h.index as int,
                            h.version,
                        )
                    } else {
                        &&& h.index == old(self).versions().len()
                        &&& h.version == 1
                        &&& final(self).free_list() == old(self).free_list()
                        &&& final(self).versions() == old(self).versions().push(1)
                    }
                },
                None => {
                    &&& final(self).versions() == old(self).versions()
                    &&& final(self).free_list() == old(self).free_list()
                    &&& forall|i: HandleIndex| old(self).in_use(i)
                },
            },
    {
        match self.frees.pop() {
            Some(index) => {
                let at: usize = index as usize;
                proof {
                    let last = old(self).frees@.len() - 1;
                    assert(old(self).frees@[last] == index);
                    assert(self.frees@ =~= old(self).frees@.drop_last());
                }
                let version: HandleIndex = self.versions[at].wrapping_add(1);
                self.versions[at] = version;
                proof {
                    assert forall|k: int| 0 <= k < self.frees@.len() implies {
                        let i = #[trigger] self.frees@[k];
                        i < self.versions@.len() && self.versions@[i as int] % 2 == 0
                    } by {
                        let last = old(self).frees@.len() - 1;
                        assert(old(self).frees@[k] == self.frees@[k]);
                        assert(old(self).frees@[k] != old(self).frees@[last]);
                    }
                    assert forall|i: int|
                        0 <= i < self.versions@.len() && (#[trigger] self.versions@[i]) % 2
                            == 0 implies self.frees@.contains(i as HandleIndex) by {
                        assert(old(self).versions@[i] % 2 == 0);
                        let k = choose|k: int|
                            0 <= k < old(self).frees@.len() && old(self).frees@[k] == i;
                        assert(self.frees@[k] == i);
                    }
                }
                Some(Handle { index, version })
            },
            None => {
                if self.versions.len() <= HandleIndex::MAX as usize {
                    let index: HandleIndex = self.versions.len() as HandleIndex;
                    self.versions.push(1);
                    proof {
                        assert forall|i: int|
                            0 <= i < self.versions@.len() && (#[trigger] self.versions@[i]) % 2
                                == 0 implies self.frees@.contains(i as HandleIndex) by {
                            assert(old(self).versions@[i] % 2 == 0);
                        }
                    }
                    Some(Handle { index, version: 1 })
                } else {
                    proof {
                        assert forall|i: HandleIndex| self.in_use(i) by {
                            if self.versions@[i as int] % 2 == 0 {
                                assert(self.frees@.contains(i));
                            }
                        }
                    }
                    None
                }
            },
        }
    }

    /// Takes the handle `h` back, if it is live. Says whether it was.
    pub fn free(&mut self, h: Handle) -> (was_live: bool)
        requires
            old(self).wf(),
        ensures
            final(self).wf(),
            was_live == old(self).is_live(h),
            forall|g: Handle| final(self).is_live(g) == (old(self).is_live(g) && g != h),
            forall|i: HandleIndex|
                final(self).in_use(i) == (old(self).in_use(i) && !(was_live && i == h.index)),
            was_live ==> {
                &&& final(self).versions() == old(self).versions().update(
                    h.index as int,
                    next_version(h.version),
                )
                &&& final(self).free_list() == old(self).free_list().push(h.index)
            },
            !was_live ==> {
                &&& final(self).versions() == old(self).versions()
                &&& final(self).free_list() == old(self).free_list()
            },
    {
        if !self.is_alive(h) {
            return false;
        }
        let at: usize = h.index as usize;
        let version: HandleIndex = self.versions[at].wrapping_add(1);
        self.versions[at] = version;
        self.frees.push(h.index);
        proof {
            assert forall|k: int| 0 <= k < old(self).frees@.len() implies old(self).frees@[k]
                != h.index by {
                let i = old(self).frees@[k];
                assert(old(self).versions@[i as int] % 2 == 0);
            }
            assert forall|k: int| 0 <= k < self.frees@.len() implies {
                let i = #[trigger] self.frees@[k];
                i < self.versions@.len() && self.versions@[i as int] % 2 == 0
            } by {
                if k < old(self).frees@.len() {
                    assert(old(self).frees@[k] == self.frees@[k]);
                }
            }
            assert forall|i: int|
                0 <= i < self.versions@.len() && (#[trigger] self.versions@[i]) % 2
                    == 0 implies self.frees@.contains(i as HandleIndex) by {
                if i == at {
                    assert(self.frees@[self.frees@.len() - 1] == h.index);
                } else {
                    assert(old(self).versions@[i] % 2 == 0);
                    let k = choose|k: int|
                        0 <= k < old(self).frees@.len() && old(self).frees@[k] == i;
                    assert(self.frees@[k] == i);
                }
            }
        }
        true
    }
}

} // verus!
