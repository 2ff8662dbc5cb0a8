//! A growable set of bit positions.
//!
//! A `BitSet` stands for a finite set of `usize` positions. It backs the
//! presence mask of the dense arena and the read and write masks that the
//! scheduler compares. Every contract is stated over the view, a `Set<usize>`;
//! the words behind it stay private.

use vstd::prelude::*;

verus! {

/// Whether bit `k` of `word` is set.
pub open spec fn bit_of(word: u64, k: u64) -> bool {
    (word >> k) & 1 == 1
}

proof fn lemma_bit_of_zero(k: u64)
    requires
        k < 64,
    ensures
        !bit_of(0, k),
{
    assert((0u64 >> k) & 1 != 1) by (bit_vector)
        requires
            k < 64,
    ;
}

proof fn lemma_bit_of_set(word: u64, k: u64, j: u64)
    requires
        k < 64,
        j < 64,
    ensures
        bit_of(word | (1u64 << k), j) == (j == k || bit_of(word, j)),
{
    assert((((word | (1u64 << k)) >> j) & 1 == 1) == (j == k || (word >> j) & 1 == 1))
        by (bit_vector)
        requires
            k < 64,
            j < 64,
    ;
}

proof fn lemma_bit_of_cleared(word: u64, k: u64, j: u64)
    requires
        k < 64,
        j < 64,
    ensures
        bit_of(word & !(1u64 << k), j) == (j != k && bit_of(word, j)),
{
    assert((((word & !(1u64 << k)) >> j) & 1 == 1) == (j != k && (word >> j) & 1 == 1))
        by (bit_vector)
        requires
            k < 64,
            j < 64,
    ;
}

proof fn lemma_bit_of_or(a: u64, b: u64, j: u64)
    requires
        j < 64,
    ensures
        bit_of(a | b, j) == (bit_of(a, j) || bit_of(b, j)),
{
    assert((((a | b) >> j) & 1 == 1) == ((a >> j) & 1 == 1 || (b >> j) & 1 == 1))
        by (bit_vector)
        requires
            j < 64,
    ;
}

proof fn lemma_bit_of_and(a: u64, b: u64, j: u64)
    requires
        j < 64,
    ensures
        bit_of(a & b, j) == (bit_of(a, j) && bit_of(b, j)),
{
    assert((((a & b) >> j) & 1 == 1) == ((a >> j) & 1 == 1 && (b >> j) & 1 == 1))
        by (bit_vector)
        requires
            j < 64,
    ;
}

/// A word that is not zero has a set bit.
proof fn lemma_nonzero_has_bit(word: u64) -> (k: u64)
    requires
        word != 0,
    ensures
        k < 64,
        bit_of(word, k),
    decreases word,
{
    if word & 1 == 1 {
        assert((word >> 0u64) & 1 == 1) by (bit_vector)
            requires
                word & 1 == 1,
        ;
        0
    } else {
        let half: u64 = word >> 1u64;
        assert(half != 0 && half < word) by (bit_vector)
            requires
                word != 0,
                word & 1 != 1,
                half == word >> 1u64,
        ;
        let below: u64 = lemma_nonzero_has_bit(half);
        assert(below < 63 && (word >> ((below + 1) as u64)) & 1 == 1) by (bit_vector)
            requires
                below < 64,
                half == word >> 1u64,
                (half >> below) & 1 == 1,
        ;
        (below + 1) as u64
    }
}

/// A finite set of positions, stored one bit per position.
pub struct BitSet {
    words: Vec<u64>,
}

impl View for BitSet {
    type V = Set<usize>;

    closed spec fn view(&self) -> Set<usize> {
        Set::new(|i: usize| self.holds(i))
    }
}

impl BitSet {
    /// Whether the words hold position `i`.
    spec fn holds(&self, i: usize) -> bool {
        i / 64 < self.words.len() && bit_of(self.words[(i / 64) as int], (i % 64) as u64)
    }

    /// The empty set.
    pub fn new() -> (s: BitSet)
        ensures
            s@ == Set::<usize>::empty(),
    {
        let s = BitSet { words: Vec::new() };
        assert(s@ =~= Set::<usize>::empty());
        s
    }

    /// Whether position `i` is in the set.
    pub fn contains(&self, i: usize) -> (b: bool)
        ensures
            b == self@.contains(i),
    {
        let w: usize = i / 64;
        if w < self.words.len() {
            let k: u64 = (i % 64) as u64;
            (self.words[w] >> k) & 1 == 1
        } else {
            false
        }
    }

    /// Adds position `i`, growing the storage as far as `i` needs.
    pub fn insert(&mut self, i: usize)
        ensures
            final(self)@ == old(self)@.insert(i),
    {
        let w: usize = i / 64;
        let k: u64 = (i % 64) as u64;
        while self.words.len() <= w
            invariant
                w == i / 64,
                forall|j: usize| self.holds(j) == old(self).holds(j),
            decreases w + 1 - self.words.len(),
        {
            let ghost before = self.words@;
            self.words.push(0);
            proof {
                assert forall|j: usize| self.holds(j) == old(self).holds(j) by {
                    if j / 64 == before.len() {
                        lemma_bit_of_zero((j % 64) as u64);
                    }
                }
            }
        }
        let word: u64 = self.words[w];
        let ghost before = *self;
        self.words[w] = word | (1u64 << k);
        proof {
            assert forall|j: usize| self.holds(j) == (j == i || old(self).holds(j)) by {
                assert(before.holds(j) == old(self).holds(j));
                if j / 64 == w {
                    lemma_bit_of_set(word, k, (j % 64) as u64);
                }
            }
            assert(self@ =~= old(self)@.insert(i));
        }
    }

    /// Takes position `i` out of the set.
    pub fn remove(&mut self, i: usize)
        ensures
            final(self)@ == old(self)@.remove(i),
    {
        let w: usize = i / 64;
        if w < self.words.len() {
            let k: u64 = (i % 64) as u64;
            let word: u64 = self.words[w];
            self.words[w] = word & !(1u64 << k);
            proof {
                assert forall|j: usize| self.holds(j) == (j != i && old(self).holds(j)) by {
                    if j / 64 == w {
                        lemma_bit_of_cleared(word, k, (j % 64) as u64);
                    }
                }
            }
        }
        assert(self@ =~= old(self)@.remove(i));
    }

    /// Takes every position out of the set.
    pub fn clear(&mut self)
        ensures
            final(self)@ == Set::<usize>::empty(),
    {
        self.words.clear();
        assert(self@ =~= Set::<usize>::empty());
    }

    /// Whether the set holds no position.
    pub fn is_empty(&self) -> (b: bool)
        ensures
            b == (self@ == Set::<usize>::empty()),
    {
        let n: usize = self.reach();
        let mut w: usize = 0;
        while w < n
            invariant
                n <= self.words.len(),
                n <= usize::MAX / 64 + 1,
                n == self.words.len() || n == usize::MAX / 64 + 1,
                w <= n,
                forall|x: int| 0 <= x < w ==> self.words[x] == 0,
            decreases n - w,
        {
            let word: u64 = self.words[w];
            if word != 0 {
                proof {
                    let k: u64 = lemma_nonzero_has_bit(word);
                    let at: usize = (w * 64 + k) as usize;
                    assert(self.holds(at));
                    assert(self@.contains(at));
                }
                return false;
            }
            w = w + 1;
        }
        proof {
            assert forall|j: usize| !self.holds(j) by {
                if j / 64 < self.words.len() {
                    lemma_bit_of_zero((j % 64) as u64);
                }
            }
            assert(self@ =~= Set::<usize>::empty());
        }
        true
    }

    /// The word at index `x`, or zero past the end of the storage.
    spec fn word_at(&self, x: int) -> u64 {
        if 0 <= x < self.words.len() {
            self.words[x]
        } else {
            0
        }
    }

    /// The positions that are in `self` or in `other`.
    pub fn union_with(&self, other: &BitSet) -> (r: BitSet)
        ensures
            r@ == self@.union(other@),
    {
        let n: usize = if self.words.len() > other.words.len() {
            self.words.len()
        } else {
            other.words.len()
        };
        let mut words: Vec<u64> = Vec::new();
        let mut w: usize = 0;
        while w < n
            invariant
                w <= n,
                words.len() == w,
                forall|x: int| 0 <= x < w ==> words[x] == (self.word_at(x) | other.word_at(x)),
            decreases n - w,
        {
            let a: u64 = if w < self.words.len() {
                self.words[w]
            } else {
                0
            };
            let b: u64 = if w < other.words.len() {
                other.words[w]
            } else {
                0
            };
            words.push(a | b);
            w = w + 1;
        }
        let r = BitSet { words };
        proof {
            assert forall|j: usize| r.holds(j) == (self.holds(j) || other.holds(j)) by {
                let x = (j / 64) as int;
                let k = (j % 64) as u64;
                lemma_bit_of_zero(k);
                if x < n {
                    lemma_bit_of_or(self.word_at(x), other.word_at(x), k);
                }
            }
            assert(r@ =~= self@.union(other@));
        }
        r
    }

    /// The positions that are in both `self` and `other`.
    pub fn intersect_with(&self, other: &BitSet) -> (r: BitSet)
        ensures
            r@ == self@.intersect(other@),
    {
        let n: usize = if self.words.len() < other.words.len() {
            self.words.len()
        } else {
            other.words.len()
        };
        let mut words: Vec<u64> = Vec::new();
        let mut w: usize = 0;
        while w < n
            invariant
                w <= n,
                n <= self.words.len(),
                n <= other.words.len(),
                words.len() == w,
                forall|x: int| 0 <= x < w ==> words[x] == (self.words[x] & other.words[x]),
            decreases n - w,
        {
            words.push(self.words[w] & other.words[w]);
            w = w + 1;
        }
        let r = BitSet { words };
        proof {
            assert forall|j: usize| r.holds(j) == (self.holds(j) && other.holds(j)) by {
                let x = (j / 64) as int;
                let k = (j % 64) as u64;
                if x < n {
                    lemma_bit_of_and(self.words[x], other.words[x], k);
                }
            }
            assert(r@ =~= self@.intersect(other@));
        }
        r
    }

    /// The positions of the set, each once, in ascending order. Every call
    /// walks the set afresh.
    pub fn iter(&self) -> (v: Vec<usize>)
        ensures
            forall|a: int, b: int| 0 <= a < b < v.len() ==> v[a] < v[b],
            forall|i: usize| self@.contains(i) <==> v@.contains(i),
    {
        let n: usize = self.reach();
        let mut v: Vec<usize> = Vec::new();
        let mut w: usize = 0;
        while w < n
            invariant
                n <= self.words.len(),
                n <= usize::MAX / 64 + 1,
                w <= n,
                forall|a: int, b: int| 0 <= a < b < v.len() ==> v[a] < v[b],
                forall|a: int| 0 <= a < v.len() ==> self.holds(#[trigger] v[a]) && v[a] < w * 64,
                forall|j: usize| j < w * 64 && self.holds(j) ==> v@.contains(j),
            decreases n - w,
        {
            let word: u64 = self.words[w];
            let mut k: u64 = 0;
            while k < 64
                invariant
                    w < n,
                    n <= self.words.len(),
                    n <= usize::MAX / 64 + 1,
                    word == self.words[w as int],
                    k <= 64,
                    forall|a: int, b: int| 0 <= a < b < v.len() ==> v[a] < v[b],
                    forall|a: int|
                        0 <= a < v.len() ==> self.holds(#[trigger] v[a]) && v[a] < w * 64 + k,
                    forall|j: usize| j < w * 64 + k && self.holds(j) ==> v@.contains(j),
                decreases 64 - k,
            {
                let pos: usize = w * 64 + k as usize;
                let ghost before = v@;
                if (word >> k) & 1 == 1 {
                    v.push(pos);
                }
                proof {
                    assert forall|j: usize| j < w * 64 + k + 1 && self.holds(j) implies v@.contains(
                        j,
                    ) by {
                        if j == pos {
                            assert(v@[v.len() - 1] == j);
                        } else {
                            let a = choose|a: int| 0 <= a < before.len() && before[a] == j;
                            assert(v@[a] == j);
                        }
                    }
                }
                k = k + 1;
            }
            w = w + 1;
        }
        proof {
            assert forall|i: usize| self@.contains(i) <==> v@.contains(i) by {
                if v@.contains(i) {
                    let a = choose|a: int| 0 <= a < v.len() && v[a] == i;
                    assert(self.holds(v[a]));
                }
            }
        }
        v
    }

    /// The number of leading words that can hold a position: a word whose
    /// first position would lie past `usize::MAX` holds none.
    fn reach(&self) -> (n: usize)
        ensures
            n <= self.words.len(),
            n <= usize::MAX / 64 + 1,
            n == self.words.len() || n == usize::MAX / 64 + 1,
    {
        let limit: usize = usize::MAX / 64 + 1;
        if self.words.len() < limit {
            self.words.len()
        } else {
            limit
        }
    }
}

impl Clone for BitSet {
    fn clone(&self) -> (r: Self)
        ensures
            r@ == self@,
    {
        let r = BitSet { words: self.words.clone() };
        assert(r.words@ =~= self.words@);
        assert(r@ =~= self@);
        r
    }
}

} // verus!
