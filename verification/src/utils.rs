//! Small helpers over slices of words.

use vstd::prelude::*;

verus! {

/// Returns a copy of `slice` rotated left by `n` places: the elements
/// from position `n` on, followed by the elements before position `n`.
pub fn rotate_left<T: Copy>(slice: &[T], n: usize) -> (r: Vec<T>)
    requires
        n <= slice@.len(),
    ensures
        r@ == slice@.subrange(n as int, slice@.len() as int) + slice@.subrange(0, n as int),
{
    let mut r: Vec<T> = Vec::new();
    proof {
        assert(r@ =~= slice@.subrange(n as int, n as int));
    }
    let mut i: usize = n;
    while i < slice.len()
        invariant
            n <= i <= slice@.len(),
            r@ == slice@.subrange(n as int, i as int),
        decreases slice@.len() - i,
    {
        r.push(slice[i]);
        proof {
            assert(r@ =~= slice@.subrange(n as int, i as int + 1));
        }
        i = i + 1;
    }
    let mut j: usize = 0;
    proof {
        assert(r@ =~= slice@.subrange(n as int, slice@.len() as int) + slice@.subrange(0, 0));
    }
    while j < n
        invariant
            j <= n <= slice@.len(),
            r@ == slice@.subrange(n as int, slice@.len() as int) + slice@.subrange(0, j as int),
        decreases n - j,
    {
        r.push(slice[j]);
        proof {
            assert(r@ =~= slice@.subrange(n as int, slice@.len() as int) + slice@.subrange(
                0,
                j as int + 1,
            ));
        }
        j = j + 1;
    }
    r
}

} // verus!
