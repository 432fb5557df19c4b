//! Pure bit arithmetic on one 64-bit storage word, shared by every
//! representation of a bit set: the meaning of a single bit, population
//! counts, and the lemmas that relate the mask operations to them.

use vstd::prelude::*;
use vstd::std_specs::bits::{axiom_u64_trailing_zeros, u64_trailing_zeros};

verus! {

/// True when bit `off` of `w` is set.  Offsets at or beyond the word
/// width name no bit and are never set.
pub open spec fn word_has(w: u64, off: u64) -> bool {
    off < 64 && (w >> off) & 1u64 == 1u64
}

/// Number of set bits of `w` at offsets below `n`.
pub open spec fn count_below(w: u64, n: int) -> nat
    decreases n,
{
    if n <= 0 {
        0
    } else {
        count_below(w, n - 1) + (if word_has(w, (n - 1) as u64) {
            1nat
        } else {
            0nat
        })
    }
}

/// Population count of one word.
pub open spec fn popcount(w: u64) -> nat {
    count_below(w, 64)
}

/// Testing a word against a single-bit mask reads exactly that bit.
pub proof fn lemma_test_mask(w: u64, off: u64)
    by (bit_vector)
    requires
        off < 64,
    ensures
        (w & (1u64 << off)) != 0 <==> word_has(w, off),
{
}

/// Or-ing a single-bit mask into a word sets that bit and no other.
pub proof fn lemma_set_mask(w: u64, off: u64)
    by (bit_vector)
    requires
        off < 64,
    ensures
        forall|j: u64| #[trigger] word_has(w | (1u64 << off), j) == (j == off || word_has(w, j)),
{
}

/// And-ing a word with the complement of a single-bit mask clears that
/// bit and no other.
pub proof fn lemma_clear_mask(w: u64, off: u64)
    by (bit_vector)
    requires
        off < 64,
    ensures
        forall|j: u64| #[trigger] word_has(w & !(1u64 << off), j) == (j != off && word_has(w, j)),
{
}

/// Or-ing in the mask of a bit that is already set changes nothing, and
/// so does clearing a bit that is not set.
pub proof fn lemma_mask_noop(w: u64, off: u64)
    by (bit_vector)
    requires
        off < 64,
    ensures
        word_has(w, off) ==> (w | (1u64 << off)) == w,
        !word_has(w, off) ==> (w & !(1u64 << off)) == w,
{
}

/// The zero word has no bit set, and is the only word with none; the
/// all-ones word has every bit set, and is the only word with all.
pub proof fn lemma_word_extremes(w: u64)
    ensures
        (w == 0) <==> (forall|j: u64| !word_has(w, j)),
        (w == u64::MAX) <==> (forall|j: u64| j < 64 ==> word_has(w, j)),
{
    if w == 0 {
        assert forall|j: u64| !word_has(w, j) by {
            assert((0u64 >> j) & 1u64 == 0u64) by (bit_vector);
        }
    } else {
        let tz = u64_trailing_zeros(w) as u64;
        axiom_u64_trailing_zeros(w);
        assert(word_has(w, tz));
    }
    if w == u64::MAX {
        assert forall|j: u64| j < 64 implies word_has(w, j) by {
            assert((u64::MAX >> j) & 1u64 == 1u64) by (bit_vector)
                requires
                    j < 64,
            ;
        }
    } else {
        assert(!w != 0) by (bit_vector)
            requires
                w != u64::MAX,
        ;
        let tz = u64_trailing_zeros(!w) as u64;
        axiom_u64_trailing_zeros(!w);
        assert(tz < 64 && (!w >> tz) & 1u64 == 1u64);
        assert((!w >> tz) & 1u64 == 1u64 ==> (w >> tz) & 1u64 == 0u64) by (bit_vector);
        assert(!word_has(w, tz));
    }
}

/// A word has at most `n` set bits below offset `n`.
pub proof fn lemma_count_below_bound(w: u64, n: int)
    ensures
        count_below(w, n) <= (if n <= 0 {
            0int
        } else {
            n
        }),
    decreases n,
{
    if n > 0 {
        lemma_count_below_bound(w, n - 1);
    }
}

/// The zero word counts no bits below any offset.
pub proof fn lemma_count_below_zero_word(n: int)
    ensures
        count_below(0u64, n) == 0,
    decreases n,
{
    if n > 0 {
        lemma_count_below_zero_word(n - 1);
        lemma_word_extremes(0u64);
    }
}

/// Counts bit by bit how many bits of `w` are set.
pub fn word_count_ones(w: u64) -> (c: usize)
    ensures
        c == popcount(w),
{
    let mut c: usize = 0;
    let mut off: usize = 0;
    while off < 64
        invariant
            off <= 64,
            c == count_below(w, off as int),
            c <= off,
        decreases 64 - off,
    {
        if (w >> (off as u64)) & 1u64 == 1u64 {
            c = c + 1;
        }
        off = off + 1;
    }
    c
}

} // verus!
