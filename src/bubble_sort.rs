use vstd::prelude::*;
use crate::order::{permutes, sorted_i32, swap};

verus! {

/// Sorts `arr` in place by repeatedly swapping adjacent elements that are out
/// of order; stops early when the first pass swaps nothing.
pub fn bubble_sort(arr: &mut [i32])
    ensures
        sorted_i32(final(arr)@),
        permutes(final(arr)@, old(arr)@),
{
    let n = arr.len();
    let mut swapped = false;
    if n <= 1 {
        return;
    }
    let mut i: usize = 0;
    while i < n - 1
        invariant
            n == arr@.len(),
            n > 1,
            i <= n - 1,
            permutes(arr@, old(arr)@),
            // the last i elements are the largest, in order
            forall|a: int, b: int| n - i <= a < b < n ==> arr@[a] <= arr@[b],
            forall|a: int, b: int| 0 <= a < n - i <= b < n ==> arr@[a] <= arr@[b],
            i > 0 ==> swapped,
        decreases n - 1 - i,
    {
        let mut j: usize = 0;
        while j < n - i - 1
            invariant
                n == arr@.len(),
                n > 1,
                i < n - 1,
                j <= n - i - 1,
                permutes(arr@, old(arr)@),
                forall|a: int, b: int| n - i <= a < b < n ==> arr@[a] <= arr@[b],
                forall|a: int, b: int| 0 <= a < n - i <= b < n ==> arr@[a] <= arr@[b],
                // arr[j] is the largest of the first j + 1 elements
                forall|a: int| 0 <= a <= j ==> arr@[a] <= arr@[j as int],
                !swapped ==> forall|a: int, b: int| 0 <= a < b <= j ==> arr@[a] <= arr@[b],
                i > 0 ==> swapped,
            decreases n - i - 1 - j,
        {
            if arr[j] > arr[j + 1] {
                swap(arr, j, j + 1);
                swapped = true;
            }
            j += 1;
        }
        if !swapped {
            return;
        }
        i += 1;
    }
}

} // verus!
