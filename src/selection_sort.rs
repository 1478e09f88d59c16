use vstd::prelude::*;
use crate::order::{permutes, sorted_i32, swap};

verus! {

/// Sorts `arr` in place by moving the smallest remaining element to the front
/// of the unsorted part, one position at a time.
pub fn selection_sort(arr: &mut [i32])
    ensures
        sorted_i32(final(arr)@),
        permutes(final(arr)@, old(arr)@),
{
    let n = arr.len();
    if n <= 1 {
        return;
    }
    let mut i: usize = 0;
    while i < n - 1
        invariant
            n == arr@.len(),
            n > 1,
            i <= n - 1,
            permutes(arr@, old(arr)@),
            // the first i elements are the smallest, in order
            forall|a: int, b: int| 0 <= a < b < i ==> arr@[a] <= arr@[b],
            forall|a: int, b: int| 0 <= a < i <= b < n ==> arr@[a] <= arr@[b],
        decreases n - 1 - i,
    {
        let mut min_index = i;
        let mut j: usize = i + 1;
        while j < n
            invariant
                n == arr@.len(),
                i < n - 1,
                i <= min_index < j <= n,
                forall|a: int| i <= a < j ==> arr@[min_index as int] <= arr@[a],
            decreases n - j,
        {
            if arr[j] < arr[min_index] {
                min_index = j;
            }
            j += 1;
        }
        swap(arr, min_index, i);
        i += 1;
    }
}

} // verus!
