//! Slot-count helpers: how many 64-bit words (8 bytes each) are needed
//! to back a set of a given size, rounding up.

use vstd::prelude::*;
use vstd::arithmetic::div_mod::{lemma_fundamental_div_mod, lemma_fundamental_div_mod_converse};

verus! {

/// Returns the number of slots needed to store the given number of
/// bits.
pub fn from_bits(n: usize) -> (r: usize)
    ensures
        r == (n as int + 63) / 64,
        n <= r * 64,
        r * 64 < n + 64,
{
    proof {
        lemma_fundamental_div_mod(n as int, 64);
        if n % 64 == 0 {
            lemma_fundamental_div_mod_converse(n as int + 63, 64, n as int / 64, 63);
        } else {
            lemma_fundamental_div_mod_converse(
                n as int + 63,
                64,
                n as int / 64 + 1,
                n as int % 64 - 1,
            );
        }
    }
    if n % 64 != 0 {
        n / 64 + 1
    } else {
        n / 64
    }
}

/// Returns the number of slots needed to store the given number of
/// bytes.
pub fn from_bytes(n: usize) -> (r: usize)
    ensures
        r == (n as int + 7) / 8,
        n <= r * 8,
        r * 8 < n + 8,
{
    proof {
        lemma_fundamental_div_mod(n as int, 8);
        if n % 8 == 0 {
            lemma_fundamental_div_mod_converse(n as int + 7, 8, n as int / 8, 7);
        } else {
            lemma_fundamental_div_mod_converse(
                n as int + 7,
                8,
                n as int / 8 + 1,
                n as int % 8 - 1,
            );
        }
    }
    if n % 8 != 0 {
        n / 8 + 1
    } else {
        n / 8
    }
}

/// Returns the number of slots needed to store the given number of
/// kilobytes: 1024 bytes make 128 slots of 8 bytes.
pub fn from_kilobytes(n: usize) -> (r: usize)
    requires
        n * 128 <= usize::MAX,
    ensures
        r == n * 128,
        r * 8 == n * 1024,
{
    n * 128
}

/// Returns the number of slots needed to store the given number of
/// megabytes: 1048576 bytes make 131072 slots of 8 bytes.
pub fn from_megabytes(n: usize) -> (r: usize)
    requires
        n * 131072 <= usize::MAX,
    ensures
        r == n * 131072,
        r * 8 == n * 1024 * 1024,
{
    n * 131072
}

} // verus!
