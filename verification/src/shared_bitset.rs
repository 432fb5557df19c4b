//! Updating values in a fixed-size bit set: the [`SharedBitSet`]
//! capability trait.  Unlike [`crate::bitset_mut::BitSetMut`], an
//! implementation never makes room for an index beyond its capacity; it
//! reports such an index as `None`, distinct from any previous-value
//! answer.

use vstd::prelude::*;

use crate::bitset::{all_clear, spec_has};
use crate::bitset_mut::{spec_insert, spec_remove};

verus! {

/// Updating values in a fixed-size bit set.
pub trait SharedBitSet: View<V = Seq<u64>> {
    /// Clears the set word by word.
    fn clear(&mut self)
        ensures
            final(self)@.len() == old(self)@.len(),
            all_clear(final(self)@),
    ;

    /// Inserts the index into the set.
    ///
    /// Returns whether the index was already present, or `None` if the
    /// index lies beyond the capacity of the set.
    fn insert(&mut self, index: usize) -> (r: Option<bool>)
        ensures
            match r {
                Some(prev) => index as int / 64 < old(self)@.len() && prev == spec_has(
                    old(self)@,
                    index as int,
                ) && final(self)@ == spec_insert(old(self)@, index as int),
                None => index as int / 64 >= old(self)@.len() && final(self)@ == old(self)@,
            },
    ;

    /// Removes the index from the set.
    ///
    /// Returns whether the index was present, or `None` if the index
    /// lies beyond the capacity of the set.
    fn remove(&mut self, index: usize) -> (r: Option<bool>)
        ensures
            match r {
                Some(prev) => index as int / 64 < old(self)@.len() && prev == spec_has(
                    old(self)@,
                    index as int,
                ) && final(self)@ == spec_remove(old(self)@, index as int),
                None => index as int / 64 >= old(self)@.len() && final(self)@ == old(self)@,
            },
    ;
}

} // verus!
