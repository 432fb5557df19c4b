//! A fixed-capacity bit set with a next-free-bit allocator.
//!
//! [`AtomicBitSet`] owns `N` words of 64 bits and hands out free
//! indices: [`AtomicBitSet::set_next_free_bit`] scans the words once,
//! starting at a rotating cursor, claims the lowest clear bit of the
//! first word that is not saturated, and returns its index.  A claim in
//! a word other than the one the cursor named moves the cursor there,
//! steering later searches away from words that are filling up; the
//! cursor biases the scan only and never decides whether a claim is
//! valid.

use vstd::prelude::*;
use vstd::arithmetic::div_mod::{
    lemma_add_mod_noop, lemma_fundamental_div_mod_converse, lemma_mod_add_multiples_vanish,
    lemma_mod_self_0, lemma_small_mod,
};
use vstd::std_specs::bits::{axiom_u64_trailing_zeros, u64_trailing_zeros};

use crate::bitset::{all_clear, spec_has, BitSet};
use crate::bitset_mut::{lemma_insert_effect, spec_insert, spec_remove, BitSetMut};
use crate::shared_bitset::SharedBitSet;
use crate::word::lemma_test_mask;

verus! {

/// A bit set of `N` words of 64 bits each, with a rotating cursor that
/// spreads successive next-free-bit searches over the words.
pub struct AtomicBitSet<const N: usize> {
    bitset: Vec<u64>,
    // biases the search for the next free bit away from words that a
    // recent search found saturated
    rotation: usize,
}

impl<const N: usize> View for AtomicBitSet<N> {
    type V = Seq<u64>;

    closed spec fn view(&self) -> Seq<u64> {
        self.bitset@
    }
}

/// The slot at which an allocation scan that started at word `skip` and
/// has already passed `k` words claims a bit: the first word from there
/// on, in rotated order, that is not all ones; `-1` when every
/// remaining word is saturated.
pub open spec fn chosen_slot_from(words: Seq<u64>, skip: int, k: int) -> int
    decreases words.len() - k,
{
    if k < 0 || words.len() <= k {
        -1
    } else if words[(skip + k) % (words.len() as int)] != u64::MAX {
        (skip + k) % (words.len() as int)
    } else {
        chosen_slot_from(words, skip, k + 1)
    }
}

/// The slot at which an allocation scan starting at word `skip` claims
/// a bit, or `-1` when every word is saturated.
pub open spec fn chosen_slot(words: Seq<u64>, skip: int) -> int {
    chosen_slot_from(words, skip, 0)
}

/// The word that an allocation scan starting at word `skip` reads at
/// step `k` of its wrap around the sequence.
spec fn scan_word(words: Seq<u64>, skip: int, k: int) -> u64 {
    words[(skip + k) % (words.len() as int)]
}

impl<const N: usize> AtomicBitSet<N> {
    /// The backing vector holds exactly `N` words, the whole capacity
    /// fits in `usize`, and the rotation cursor names a word (or rests
    /// at 0 when there is none).
    #[verifier::type_invariant]
    spec fn inv(&self) -> bool {
        &&& self.bitset@.len() == N
        &&& N * 64 <= usize::MAX
        &&& self.rotation < N || self.rotation == 0
    }

    /// The word index where the next allocation scan starts.
    pub closed spec fn spec_rotation(&self) -> int {
        self.rotation as int
    }

    /// Creates a new `AtomicBitSet` with `N` slots of 64 bits each, all
    /// clear, and the scan cursor on the first word.
    pub fn new() -> (s: Self)
        requires
            N * 64 <= usize::MAX,
        ensures
            s@.len() == N,
            all_clear(s@),
            s.spec_rotation() == 0,
    {
        let mut bitset: Vec<u64> = Vec::new();
        while bitset.len() < N
            invariant
                bitset@.len() <= N,
                forall|k: int| 0 <= k < bitset@.len() ==> bitset@[k] == 0u64,
            decreases N - bitset@.len(),
        {
            bitset.push(0u64);
        }
        AtomicBitSet { bitset, rotation: 0 }
    }

    /// Finds the next free bit (an unset bit) in the set, sets it, and
    /// returns its index; `None` when every bit is set.
    ///
    /// The search starts at the word the rotation cursor names, wraps
    /// once around all `N` words, and claims the lowest clear bit of the
    /// first word that is not saturated.  A claim in a word other than
    /// the one the cursor named moves the cursor to the claimed word.
    pub fn set_next_free_bit(&mut self) -> (r: Option<usize>)
        ensures
            ({
                let words = old(self)@;
                let skip = old(self).spec_rotation();
                let slot = chosen_slot(words, skip);
                if slot >= 0 {
                    let idx = slot * 64 + u64_trailing_zeros(!words[slot]) as int;
                    &&& r == Some(idx as usize)
                    &&& idx < N * 64
                    &&& !spec_has(words, idx)
                    &&& final(self)@ == spec_insert(words, idx)
                    &&& spec_has(final(self)@, idx)
                    &&& final(self).spec_rotation() == (if slot == skip {
                        skip
                    } else {
                        slot
                    })
                } else {
                    &&& r is None
                    &&& (forall|j: int| 0 <= j < words.len() ==> words[j] == u64::MAX)
                    &&& final(self)@ == words
                    &&& final(self).spec_rotation() == skip
                }
            }),
    {
        proof {
            use_type_invariant(&*self);
        }
        let skip = self.rotation;
        let mut slot_idx = skip;
        let mut k: usize = 0;
        proof {
            if N > 0 {
                lemma_small_mod(skip as nat, N as nat);
            }
        }
        while k < N
            invariant
                self@ == old(self)@,
                self@.len() == N,
                N * 64 <= usize::MAX,
                self.rotation == old(self).rotation,
                skip == old(self).rotation,
                skip < N || skip == 0,
                k <= N,
                N > 0 ==> slot_idx < N,
                N > 0 ==> slot_idx as int == (skip as int + k as int) % (N as int),
                forall|k2: int|
                    0 <= k2 < k as int ==> scan_word(old(self)@, skip as int, k2) == u64::MAX,
                chosen_slot(old(self)@, skip as int) == chosen_slot_from(
                    old(self)@,
                    skip as int,
                    k as int,
                ),
            decreases N - k,
        {
            let curr = self.bitset[slot_idx];
            if curr != u64::MAX {
                proof {
                    assert(!curr != 0) by (bit_vector)
                        requires
                            curr != u64::MAX,
                    ;
                    axiom_u64_trailing_zeros(!curr);
                }
                let next_available_bit = (!curr).trailing_zeros() as usize;
                let idx = slot_idx * 64 + next_available_bit;
                let updated = curr | (1u64 << (next_available_bit as u64));
                self.bitset[slot_idx] = updated;
                if skip != slot_idx {
                    self.rotation = slot_idx;
                }
                proof {
                    let t = next_available_bit as u64;
                    assert((!curr >> t) & 1u64 == 1u64 ==> (curr >> t) & 1u64 == 0u64)
                        by (bit_vector);
                    lemma_fundamental_div_mod_converse(
                        idx as int,
                        64,
                        slot_idx as int,
                        next_available_bit as int,
                    );
                    lemma_insert_effect(old(self)@, idx as int);
                    assert(chosen_slot(old(self)@, skip as int) == slot_idx as int);
                }
                return Some(idx);
            }
            proof {
                let n = N as int;
                let s = skip as int;
                let kk = k as int;
                lemma_add_mod_noop(s + kk, 1, n);
                if n == 1 {
                    lemma_mod_self_0(1);
                    lemma_small_mod(0nat, 1nat);
                    assert((s + kk + 1) % n == 0);
                } else {
                    lemma_small_mod(1nat, n as nat);
                    if slot_idx + 1 == N {
                        lemma_mod_self_0(n);
                        assert((s + kk + 1) % n == 0);
                    } else {
                        lemma_small_mod((slot_idx + 1) as nat, N as nat);
                        assert((s + kk + 1) % n == slot_idx as int + 1);
                    }
                }
                assert(scan_word(old(self)@, s, kk) == u64::MAX);
                assert(chosen_slot_from(old(self)@, s, kk) == chosen_slot_from(
                    old(self)@,
                    s,
                    kk + 1,
                ));
            }
            slot_idx = slot_idx + 1;
            if slot_idx >= N {
                slot_idx = 0;
            }
            k = k + 1;
        }
        proof {
            let n = N as int;
            let s = skip as int;
            if N > 0 {
                assert forall|j: int| 0 <= j < n implies old(self)@[j] == u64::MAX by {
                    let k2 = if j >= s {
                        j - s
                    } else {
                        j + n - s
                    };
                    if j >= s {
                        lemma_small_mod(j as nat, N as nat);
                        assert((s + k2) % n == j);
                    } else {
                        lemma_mod_add_multiples_vanish(j, n);
                        lemma_small_mod(j as nat, N as nat);
                        assert((s + k2) % n == j);
                    }
                    assert(scan_word(old(self)@, s, k2) == u64::MAX);
                    assert(old(self)@[(s + k2) % n] == u64::MAX);
                }
            }
        }
        None
    }

    /// Clears the set word by word, leaving the scan cursor alone.
    pub fn clear(&mut self)
        ensures
            final(self)@.len() == old(self)@.len(),
            all_clear(final(self)@),
            final(self).spec_rotation() == old(self).spec_rotation(),
    {
        proof {
            use_type_invariant(&*self);
        }
        let mut k: usize = 0;
        let n = self.bitset.len();
        while k < n
            invariant
                n == self.bitset@.len(),
                self.bitset@.len() == old(self)@.len(),
                self.bitset@.len() == N,
                N * 64 <= usize::MAX,
                self.rotation == old(self).rotation,
                self.rotation < N || self.rotation == 0,
                k <= n,
                forall|j: int| 0 <= j < k as int ==> self.bitset@[j] == 0u64,
            decreases n - k,
        {
            self.bitset[k] = 0u64;
            k = k + 1;
        }
    }

    /// Inserts the index, returning whether it was already present, or
    /// `None` for an index beyond the capacity.  The scan cursor is left
    /// alone.
    pub fn insert(&mut self, index: usize) -> (r: Option<bool>)
        ensures
            final(self).spec_rotation() == old(self).spec_rotation(),
            match r {
                Some(prev) => index as int / 64 < old(self)@.len() && prev == spec_has(
                    old(self)@,
                    index as int,
                ) && final(self)@ == spec_insert(old(self)@, index as int),
                None => index as int / 64 >= old(self)@.len() && final(self)@ == old(self)@,
            },
    {
        proof {
            use_type_invariant(&*self);
        }
        let slot_idx = index / 64;
        if slot_idx >= self.bitset.len() {
            return None;
        }
        let off = index % 64;
        proof {
            lemma_test_mask(self.bitset@[slot_idx as int], off as u64);
        }
        let prev = (self.bitset[slot_idx] & (1u64 << (off as u64))) != 0;
        let w = self.bitset[slot_idx] | (1u64 << (off as u64));
        self.bitset[slot_idx] = w;
        Some(prev)
    }

    /// Removes the index, returning whether it was present, or `None`
    /// for an index beyond the capacity.  The scan cursor is left alone.
    pub fn remove(&mut self, index: usize) -> (r: Option<bool>)
        ensures
            final(self).spec_rotation() == old(self).spec_rotation(),
            match r {
                Some(prev) => index as int / 64 < old(self)@.len() && prev == spec_has(
                    old(self)@,
                    index as int,
                ) && final(self)@ == spec_remove(old(self)@, index as int),
                None => index as int / 64 >= old(self)@.len() && final(self)@ == old(self)@,
            },
    {
        proof {
            use_type_invariant(&*self);
        }
        let slot_idx = index / 64;
        if slot_idx >= self.bitset.len() {
            return None;
        }
        let off = index % 64;
        proof {
            lemma_test_mask(self.bitset@[slot_idx as int], off as u64);
        }
        let prev = (self.bitset[slot_idx] & (1u64 << (off as u64))) != 0;
        let w = self.bitset[slot_idx] & !(1u64 << (off as u64));
        self.bitset[slot_idx] = w;
        Some(prev)
    }
}

impl<const N: usize> BitSet for AtomicBitSet<N> {
    /// The type invariant already keeps the backing vector in shape, so
    /// the reading operations ask nothing of their callers.
    open spec fn wf(&self) -> bool {
        true
    }

    fn capacity(&self) -> usize {
        proof {
            use_type_invariant(&*self);
        }
        BitSet::capacity(&self.bitset)
    }

    fn has(&self, index: usize) -> bool {
        BitSet::has(&self.bitset, index)
    }

    fn is_empty(&self) -> bool {
        BitSet::is_empty(&self.bitset)
    }

    fn size(&self) -> usize {
        proof {
            use_type_invariant(&*self);
        }
        BitSet::size(&self.bitset)
    }
}

impl<const N: usize> SharedBitSet for AtomicBitSet<N> {
    fn clear(&mut self) {
        AtomicBitSet::clear(self)
    }

    fn insert(&mut self, index: usize) -> Option<bool> {
        AtomicBitSet::insert(self, index)
    }

    fn remove(&mut self, index: usize) -> Option<bool> {
        AtomicBitSet::remove(self, index)
    }
}

impl<const N: usize> BitSetMut for AtomicBitSet<N> {
    /// A fixed-size set holds exactly the indices below its capacity.
    open spec fn can_hold(&self, index: usize) -> bool {
        index as int / 64 < N
    }

    fn clear(&mut self) {
        AtomicBitSet::clear(self)
    }

    fn insert(&mut self, index: usize) -> Result<bool, usize> {
        proof {
            use_type_invariant(&*self);
        }
        let slot_idx = index / 64;
        match AtomicBitSet::insert(self, index) {
            Some(prev) => {
                proof {
                    lemma_insert_effect(old(self)@, index as int);
                }
                Ok(prev)
            },
            None => Err(slot_idx),
        }
    }

    fn remove(&mut self, index: usize) -> Option<bool> {
        AtomicBitSet::remove(self, index)
    }
}

} // verus!
