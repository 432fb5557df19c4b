//! Reading from a bit set: the model of a word sequence as a set of
//! indices, the [`BitSet`] capability trait, and its implementation for a
//! plain vector of words.

use vstd::prelude::*;
use vstd::arithmetic::div_mod::{lemma_fundamental_div_mod, lemma_fundamental_div_mod_converse};

use crate::word::{
    count_below, lemma_count_below_bound, lemma_count_below_zero_word, lemma_test_mask,
    lemma_word_extremes, popcount, word_count_ones, word_has,
};

verus! {

/// True when index `i` is present in the set backed by `words`: its word
/// exists and the bit at offset `i % 64` of word `i / 64` is set.
pub open spec fn spec_has(words: Seq<u64>, i: int) -> bool {
    0 <= i && i / 64 < words.len() && word_has(words[i / 64], (i % 64) as u64)
}

/// True when every backing word is zero.
pub open spec fn all_clear(words: Seq<u64>) -> bool {
    forall|k: int| 0 <= k < words.len() ==> words[k] == 0u64
}

/// Sum of the population counts of the first `k` words.
pub open spec fn size_upto(words: Seq<u64>, k: int) -> nat
    decreases k,
{
    if k <= 0 {
        0
    } else {
        size_upto(words, k - 1) + popcount(words[k - 1])
    }
}

/// Population count of the whole set: what `size` returns.
pub open spec fn spec_size(words: Seq<u64>) -> nat {
    size_upto(words, words.len() as int)
}

/// Number of present indices below `n`.
pub open spec fn count_present_below(words: Seq<u64>, n: int) -> nat
    decreases n,
{
    if n <= 0 {
        0
    } else {
        count_present_below(words, n - 1) + (if spec_has(words, n - 1) {
            1nat
        } else {
            0nat
        })
    }
}

/// Reading values from a bit set.
pub trait BitSet: View<V = Seq<u64>> {
    /// The backing words are in a shape the counting operations may rely
    /// on; chiefly that the capacity fits in `usize`.
    spec fn wf(&self) -> bool;

    /// Returns the number of bits that can be stored in the set.
    fn capacity(&self) -> (r: usize)
        requires
            self.wf(),
        ensures
            r == self@.len() * 64,
    ;

    /// Returns `true` if the set contains the given index.
    fn has(&self, index: usize) -> (r: bool)
        ensures
            r == spec_has(self@, index as int),
    ;

    /// Returns `true` if the set contains no index at all.
    fn is_empty(&self) -> (r: bool)
        ensures
            r == all_clear(self@),
    ;

    /// Returns the number of indices in the set.
    fn size(&self) -> (r: usize)
        requires
            self.wf(),
        ensures
            r == spec_size(self@),
    ;
}

impl BitSet for Vec<u64> {
    open spec fn wf(&self) -> bool {
        self@.len() * 64 <= usize::MAX
    }

    fn capacity(&self) -> (r: usize) {
        self.len() * 64
    }

    fn has(&self, index: usize) -> (r: bool) {
        let slot_idx = index / 64;
        if slot_idx < self.len() {
            let off = index % 64;
            proof {
                lemma_test_mask(self@[slot_idx as int], off as u64);
            }
            (self[slot_idx] & (1u64 << (off as u64))) != 0
        } else {
            false
        }
    }

    fn is_empty(&self) -> (r: bool) {
        slice_all_zero(self.as_slice())
    }

    fn size(&self) -> (r: usize) {
        slice_count_ones(self.as_slice())
    }
}

/// Scans the words of `slice` for a non-zero one.
pub fn slice_all_zero(slice: &[u64]) -> (r: bool)
    ensures
        r == all_clear(slice@),
{
    let mut k: usize = 0;
    while k < slice.len()
        invariant
            k <= slice@.len(),
            forall|j: int| 0 <= j < k ==> slice@[j] == 0u64,
        decreases slice@.len() - k,
    {
        if slice[k] != 0 {
            assert(slice@[k as int] != 0u64);
            return false;
        }
        k = k + 1;
    }
    true
}

/// Sums the population counts of the words of `slice`.
pub fn slice_count_ones(slice: &[u64]) -> (r: usize)
    requires
        slice@.len() * 64 <= usize::MAX,
    ensures
        r == spec_size(slice@),
{
    let mut total: usize = 0;
    let mut k: usize = 0;
    while k < slice.len()
        invariant
            k <= slice@.len(),
            slice@.len() * 64 <= usize::MAX,
            total == size_upto(slice@, k as int),
            total <= k * 64,
        decreases slice@.len() - k,
    {
        let c = word_count_ones(slice[k]);
        proof {
            lemma_count_below_bound(slice@[k as int], 64);
        }
        total = total + c;
        k = k + 1;
    }
    total
}

/// A set reads empty exactly when no index at all is present.
pub proof fn lemma_all_clear_has_none(words: Seq<u64>)
    ensures
        all_clear(words) <==> (forall|i: int| !spec_has(words, i)),
{
    if all_clear(words) {
        assert forall|i: int| !spec_has(words, i) by {
            if 0 <= i && i / 64 < words.len() {
                lemma_word_extremes(words[i / 64]);
            }
        }
    } else {
        let k = choose|k: int| 0 <= k < words.len() && words[k] != 0u64;
        lemma_word_extremes(words[k]);
        assert(exists|j: u64| word_has(words[k], j));
        let j = choose|j: u64| word_has(words[k], j);
        lemma_fundamental_div_mod_converse(k * 64 + j, 64, k, j as int);
        assert(spec_has(words, k * 64 + j));
    }
}

/// A set is saturated — every word all ones, so that no allocation can
/// succeed — exactly when every index below the capacity is present.
pub proof fn lemma_saturated_has_all(words: Seq<u64>)
    ensures
        (forall|k: int| 0 <= k < words.len() ==> words[k] == u64::MAX) <==> (forall|i: int|
            0 <= i < words.len() * 64 ==> spec_has(words, i)),
{
    if forall|k: int| 0 <= k < words.len() ==> words[k] == u64::MAX {
        assert forall|i: int| 0 <= i < words.len() * 64 implies spec_has(words, i) by {
            let k = i / 64;
            assert(k < words.len()) by {
                if k >= words.len() {
                    lemma_fundamental_div_mod(i, 64);
                }
            }
            lemma_word_extremes(words[k]);
        }
    } else {
        let k = choose|k: int| 0 <= k < words.len() && words[k] != u64::MAX;
        lemma_word_extremes(words[k]);
        assert(exists|j: u64| j < 64 && !word_has(words[k], j));
        let j = choose|j: u64| j < 64 && !word_has(words[k], j);
        lemma_fundamental_div_mod_converse(k * 64 + j, 64, k, j as int);
        assert(!spec_has(words, k * 64 + j));
        assert(0 <= k * 64 + j < words.len() * 64);
    }
}

/// The present indices inside word `k` up to offset `m` are counted by
/// the word's own bit count.
proof fn lemma_count_present_word(words: Seq<u64>, k: int, m: int)
    requires
        0 <= k < words.len(),
        0 <= m <= 64,
    ensures
        count_present_below(words, k * 64 + m) == count_present_below(words, k * 64)
            + count_below(words[k], m),
    decreases m,
{
    if m > 0 {
        lemma_count_present_word(words, k, m - 1);
        let i = k * 64 + (m - 1);
        lemma_fundamental_div_mod_converse(i, 64, k, m - 1);
        assert(spec_has(words, i) == word_has(words[k], (m - 1) as u64));
    }
}

proof fn lemma_size_upto_counts(words: Seq<u64>, k: int)
    requires
        0 <= k <= words.len(),
    ensures
        size_upto(words, k) == count_present_below(words, k * 64),
    decreases k,
{
    if k > 0 {
        lemma_size_upto_counts(words, k - 1);
        lemma_count_present_word(words, k - 1, 64);
    }
}

/// The size of a set equals the number of indices it holds: summing
/// population counts word by word counts every present index below the
/// capacity exactly once.
pub proof fn lemma_size_is_count(words: Seq<u64>)
    ensures
        spec_size(words) == count_present_below(words, words.len() as int * 64),
{
    lemma_size_upto_counts(words, words.len() as int);
}

/// A set whose words are all zero has size zero.
pub proof fn lemma_all_clear_size_zero(words: Seq<u64>)
    requires
        all_clear(words),
    ensures
        spec_size(words) == 0,
{
    lemma_size_upto_all_clear(words, words.len() as int);
}

proof fn lemma_size_upto_all_clear(words: Seq<u64>, k: int)
    requires
        k <= words.len(),
        all_clear(words),
    ensures
        size_upto(words, k) == 0,
    decreases k,
{
    if k > 0 {
        lemma_size_upto_all_clear(words, k - 1);
        lemma_count_below_zero_word(64);
    }
}

} // verus!
