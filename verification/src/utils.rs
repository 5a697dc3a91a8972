//! Helpers for clients of the library.

use vstd::prelude::*;

verus! {

/// The first `N` bytes of `vec` as an array: a longer vector is cut off, a
/// shorter one filled up with zeros.
pub fn vec_to_array<const N: usize>(vec: &Vec<u8>) -> (arr: [u8; N])
    ensures
        forall|i: int|
            0 <= i < N ==> arr@[i] == if i < vec@.len() {
                vec@[i]
            } else {
                0u8
            },
{
    let mut arr = [0u8;N];
    let mut i: usize = 0;
    while i < N && i < vec.len()
        invariant
            i <= N,
            i <= vec@.len(),
            forall|k: int| 0 <= k < i ==> arr@[k] == vec@[k],
            forall|k: int| i <= k < N ==> arr@[k] == 0u8,
        decreases N - i,
    {
        arr[i] = vec[i];
        i += 1;
    }
    arr
}

} // verus!
