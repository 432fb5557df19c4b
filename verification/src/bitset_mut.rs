//! Mutating a bit set through an exclusive reference: the spec-level
//! transformations `spec_insert` and `spec_remove`, the [`BitSetMut`]
//! capability trait, and its implementation for a growable vector of
//! words that makes room on demand.

use vstd::prelude::*;
use vstd::arithmetic::div_mod::{lemma_fundamental_div_mod, lemma_mod_bound};

use crate::bitset::{all_clear, spec_has};
use crate::word::{lemma_clear_mask, lemma_mask_noop, lemma_set_mask, lemma_test_mask,
    lemma_word_extremes};

verus! {

/// The backing words after index `i` is inserted: the mask of bit
/// `i % 64` is or-ed into word `i / 64`.
pub open spec fn spec_insert(words: Seq<u64>, i: int) -> Seq<u64> {
    words.update(i / 64, words[i / 64] | (1u64 << ((i % 64) as u64)))
}

/// The backing words after index `i` is removed: bit `i % 64` of word
/// `i / 64` is cleared.
pub open spec fn spec_remove(words: Seq<u64>, i: int) -> Seq<u64> {
    words.update(i / 64, words[i / 64] & !(1u64 << ((i % 64) as u64)))
}

/// Inserting an in-range index makes exactly that index present and
/// moves no other.
pub proof fn lemma_insert_effect(words: Seq<u64>, i: int)
    requires
        0 <= i,
        i / 64 < words.len(),
    ensures
        spec_insert(words, i).len() == words.len(),
        spec_has(spec_insert(words, i), i),
        forall|j: int| j != i ==> spec_has(spec_insert(words, i), j) == spec_has(words, j),
{
    lemma_mod_bound(i, 64);
    let k = i / 64;
    let off = (i % 64) as u64;
    lemma_set_mask(words[k], off);
    assert forall|j: int| j != i implies spec_has(spec_insert(words, i), j) == spec_has(
        words,
        j,
    ) by {
        if 0 <= j && j / 64 == k && j % 64 == i % 64 {
            lemma_fundamental_div_mod(j, 64);
            lemma_fundamental_div_mod(i, 64);
        }
    }
}

/// Removing an in-range index makes exactly that index absent and moves
/// no other.
pub proof fn lemma_remove_effect(words: Seq<u64>, i: int)
    requires
        0 <= i,
        i / 64 < words.len(),
    ensures
        spec_remove(words, i).len() == words.len(),
        !spec_has(spec_remove(words, i), i),
        forall|j: int| j != i ==> spec_has(spec_remove(words, i), j) == spec_has(words, j),
{
    lemma_mod_bound(i, 64);
    let k = i / 64;
    let off = (i % 64) as u64;
    lemma_clear_mask(words[k], off);
    assert forall|j: int| j != i implies spec_has(spec_remove(words, i), j) == spec_has(
        words,
        j,
    ) by {
        if 0 <= j && j / 64 == k && j % 64 == i % 64 {
            lemma_fundamental_div_mod(j, 64);
            lemma_fundamental_div_mod(i, 64);
        }
    }
}

/// Re-inserting a present index leaves the backing words unchanged, and
/// removing an absent in-range index does too.
pub proof fn lemma_insert_remove_idempotent(words: Seq<u64>, i: int)
    requires
        0 <= i,
        i / 64 < words.len(),
    ensures
        spec_has(words, i) ==> spec_insert(words, i) == words,
        !spec_has(words, i) ==> spec_remove(words, i) == words,
{
    lemma_mod_bound(i, 64);
    lemma_mask_noop(words[i / 64], (i % 64) as u64);
    if spec_has(words, i) {
        assert(spec_insert(words, i) =~= words);
    } else {
        assert(spec_remove(words, i) =~= words);
    }
}

/// Extending the backing words with zero words leaves the same indices
/// present.
pub proof fn lemma_grow_preserves(words: Seq<u64>, grown: Seq<u64>)
    requires
        words.len() <= grown.len(),
        forall|k: int| 0 <= k < words.len() ==> grown[k] == words[k],
        forall|k: int| words.len() <= k < grown.len() ==> grown[k] == 0u64,
    ensures
        forall|j: int| spec_has(grown, j) == spec_has(words, j),
{
    assert forall|j: int| spec_has(grown, j) == spec_has(words, j) by {
        if 0 <= j && words.len() <= j / 64 < grown.len() {
            lemma_word_extremes(grown[j / 64]);
        }
    }
}

/// Mutating values in a bit set owned exclusively by the caller.
pub trait BitSetMut: View<V = Seq<u64>> {
    /// True when the representation has room for the given index, or can
    /// make room for it.
    spec fn can_hold(&self, index: usize) -> bool;

    /// Clears the set, never growing its backing words.
    fn clear(&mut self)
        ensures
            final(self)@.len() <= old(self)@.len(),
            all_clear(final(self)@),
    ;

    /// Inserts the index into the set.
    ///
    /// Returns `Ok(true)` if the index was already present.  Returns
    /// `Err(slot_idx)` if the set cannot hold the index, where
    /// `slot_idx` is the index of the word that would be required.
    fn insert(&mut self, index: usize) -> (r: Result<bool, usize>)
        ensures
            match r {
                Ok(prev) => old(self).can_hold(index) && prev == spec_has(
                    old(self)@,
                    index as int,
                ) && final(self)@.len() == (if index as int / 64 + 1 > old(self)@.len() {
                    index as int / 64 + 1
                } else {
                    old(self)@.len() as int
                }) && spec_has(final(self)@, index as int) && (forall|j: int|
                    j != index as int ==> spec_has(final(self)@, j) == spec_has(old(self)@, j)),
                Err(slot_idx) => !old(self).can_hold(index) && slot_idx as int == index as int
                    / 64 && final(self)@ == old(self)@,
            },
    ;

    /// Removes the index from the set.
    ///
    /// Returns `Some(true)` if the index was present.  Returns `None` if
    /// the set cannot hold the index at all, distinct from
    /// `Some(false)`.
    fn remove(&mut self, index: usize) -> (r: Option<bool>)
        ensures
            match r {
                Some(prev) => index as int / 64 < old(self)@.len() && prev == spec_has(
                    old(self)@,
                    index as int,
                ) && final(self)@ == spec_remove(old(self)@, index as int),
                None => index as int / 64 >= old(self)@.len() && final(self)@ == old(self)@,
            },
    ;
}

impl BitSetMut for Vec<u64> {
    /// A growable vector of words makes room for any index.
    open spec fn can_hold(&self, index: usize) -> bool {
        true
    }

    fn clear(&mut self) {
        Vec::clear(self);
    }

    fn insert(&mut self, index: usize) -> Result<bool, usize> {
        let ghost orig = self@;
        let slot_idx = index / 64;
        while self.len() <= slot_idx
            invariant
                orig.len() <= self@.len() <= slot_idx as int + 1 || self@ == orig,
                forall|k: int| 0 <= k < orig.len() ==> self@[k] == orig[k],
                forall|k: int| orig.len() <= k < self@.len() ==> self@[k] == 0u64,
            decreases slot_idx + 1 - self@.len(),
        {
            self.push(0u64);
        }
        let ghost grown = self@;
        proof {
            lemma_grow_preserves(orig, grown);
        }
        let off = index % 64;
        proof {
            lemma_test_mask(self@[slot_idx as int], off as u64);
        }
        let prev = (self[slot_idx] & (1u64 << (off as u64))) != 0;
        let w = self[slot_idx] | (1u64 << (off as u64));
        self[slot_idx] = w;
        proof {
            assert(self@ == spec_insert(grown, index as int));
            lemma_insert_effect(grown, index as int);
        }
        Ok(prev)
    }

    fn remove(&mut self, index: usize) -> Option<bool> {
        let slot_idx = index / 64;
        if slot_idx >= self.len() {
            return None;
        }
        let off = index % 64;
        proof {
            lemma_test_mask(self@[slot_idx as int], off as u64);
        }
        let prev = (self[slot_idx] & (1u64 << (off as u64))) != 0;
        let w = self[slot_idx] & !(1u64 << (off as u64));
        self[slot_idx] = w;
        Some(prev)
    }
}

} // verus!
