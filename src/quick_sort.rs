use vstd::prelude::*;
use crate::order::{gt, le, lemma_gt_facts, occurs_in, permutes, sorted_range_le, swap, total_order};

verus! {

/// Sorts the positions `l..=r` of `arr` in place: picks the median of the
/// first, middle and last elements as pivot, splits the range into the parts
/// below, equal to and above it, and sorts the outer parts. The rest of `arr`
/// is left as it is.
pub fn quick_sort<T: Ord + Copy>(arr: &mut [T], l: usize, r: usize)
    requires
        total_order::<T>(),
        l >= r || r < old(arr)@.len(),
    ensures
        final(arr)@.len() == old(arr)@.len(),
        l < r ==> sorted_range_le(final(arr)@, l as int, r + 1),
        forall|k: int| 0 <= k < final(arr)@.len() && (k < l || k > r) ==> final(arr)@[k] == old(arr)@[k],
        permutes(final(arr)@, old(arr)@),
        l >= r ==> final(arr)@ == old(arr)@,
        // each element of the range comes from the range
        forall|k: int|
            #![trigger final(arr)@[k]]
            l <= k <= r ==> occurs_in(old(arr)@, final(arr)@[k], l as int, r as int),
    decreases r - l,
{
    if l >= r {
        proof {
            assert forall|k: int| #![trigger arr@[k]] l <= k <= r implies occurs_in(old(arr)@, arr@[k], l as int, r as int) by {
                assert(l <= k <= r && old(arr)@[k] == arr@[k]);
            }
        }
        return;
    }
    let ghost a0 = arr@;
    let mut pivot = arr[l];
    let mid = l + (r - l) / 2;
    if arr[mid] <= arr[l] && arr[mid] >= arr[r] || arr[mid] >= arr[l] && arr[mid] <= arr[r] {
        pivot = arr[mid];
    } else if arr[r] <= arr[l] && arr[r] >= arr[mid] || arr[r] >= arr[l] && arr[r] <= arr[mid] {
        pivot = arr[r];
    }
    let n = arr.len();
    let mut i = l;
    let mut j = l;
    let mut k = r + 1;
    proof {
        assert forall|p: int| #![trigger arr@[p]] l <= p <= r implies occurs_in(a0, arr@[p], l as int, r as int) by {
            assert(l <= p <= r && a0[p] == arr@[p]);
        }
    }
    while i < k
        invariant
            total_order::<T>(),
            l < r < n == arr@.len() == a0.len(),
            a0 == old(arr)@,
            l <= j <= i <= k <= r + 1,
            permutes(arr@, a0),
            forall|p: int| 0 <= p < n && (p < l || p > r) ==> arr@[p] == a0[p],
            forall|p: int| #![trigger arr@[p]] l <= p <= r ==> occurs_in(a0, arr@[p], l as int, r as int),
            occurs_in(arr@, pivot, l as int, r as int),
            forall|p: int| l <= p < j ==> gt(pivot, arr@[p]),
            forall|p: int| j <= p < i ==> !gt(arr@[p], pivot) && !gt(pivot, arr@[p]),
            forall|p: int| k <= p <= r ==> gt(arr@[p], pivot),
        decreases k - i,
    {
        let ghost before = arr@;
        if arr[i] > pivot {
            k -= 1;
            swap(arr, i, k);
            proof {
                lemma_swap_keeps(before, arr@, i as int, k as int, l as int, r as int, pivot, a0);
            }
        } else if arr[i] < pivot {
            swap(arr, i, j);
            proof {
                lemma_swap_keeps(before, arr@, i as int, j as int, l as int, r as int, pivot, a0);
            }
            i += 1;
            j += 1;
        } else {
            i += 1;
        }
    }
    proof {
        let p = choose|p: int| l <= p <= r && arr@[p] == pivot;
        lemma_gt_facts(pivot, pivot);
        assert(j <= p < k);
    }
    let ghost a1 = arr@;
    if j > 0 && j > l {
        quick_sort(arr, l, j - 1);
    }
    let ghost a2 = arr@;
    proof {
        assert forall|p: int| #![trigger a2[p]] l <= p < j implies gt(pivot, a2[p]) by {
            if j > l {
                let q = choose|q: int| l <= q <= j - 1 && a1[q] == a2[p];
            }
        }
        assert forall|p: int| #![trigger a2[p]] l <= p <= r implies occurs_in(a0, a2[p], l as int, r as int) by {
            if p < j {
                let q = choose|q: int| l <= q <= j - 1 && a1[q] == a2[p];
                assert(a1[q] == a2[p]);
            } else {
                assert(a1[p] == a2[p]);
            }
        }
    }
    if k <= r {
        quick_sort(arr, k, r);
    }
    proof {
        let a3 = arr@;
        assert forall|p: int| #![trigger a3[p]] k <= p <= r implies gt(a3[p], pivot) by {
            let q = choose|q: int| k <= q <= r && a2[q] == a3[p];
        }
        assert forall|p: int| #![trigger a3[p]] l <= p <= r implies occurs_in(old(arr)@, a3[p], l as int, r as int) by {
            if p >= k {
                let q = choose|q: int| k <= q <= r && a2[q] == a3[p];
                assert(a2[q] == a3[p]);
            } else {
                assert(a2[p] == a3[p]);
            }
        }
        assert forall|a: int, b: int| l <= a < b < r + 1 implies le(a3[a], a3[b]) by {
            if a < j && b >= j {
                assert(a3[a] == a2[a]);
            }
            if !(a < j && b < j) && !(a >= k && b >= k) {
                lemma_gt_facts(a3[a], pivot);
                lemma_gt_facts(pivot, a3[a]);
                lemma_gt_facts(a3[b], pivot);
                lemma_gt_facts(pivot, a3[b]);
            }
        }
    }
}

/// A swap of two positions of the range `l..=r` keeps the pivot present in
/// the range, and keeps each element of the range one of `a0`'s.
proof fn lemma_swap_keeps<T>(
    before: Seq<T>,
    after: Seq<T>,
    x: int,
    y: int,
    l: int,
    r: int,
    pivot: T,
    a0: Seq<T>,
)
    requires
        0 <= l <= x <= r,
        l <= y <= r,
        r < before.len(),
        after == before.update(x, before[y]).update(y, before[x]),
        occurs_in(before, pivot, l, r),
        forall|p: int| #![trigger before[p]] l <= p <= r ==> occurs_in(a0, before[p], l, r),
    ensures
        occurs_in(after, pivot, l, r),
        forall|p: int| #![trigger after[p]] l <= p <= r ==> occurs_in(a0, after[p], l, r),
{
    let w = choose|p: int| l <= p <= r && before[p] == pivot;
    if w == x {
        assert(after[y] == pivot);
    } else if w == y {
        assert(after[x] == pivot);
    } else {
        assert(after[w] == pivot);
    }
    assert forall|p: int| #![trigger after[p]] l <= p <= r implies occurs_in(a0, after[p], l, r) by {
        if p == x {
            assert(after[p] == before[y]);
        } else if p == y {
            assert(after[p] == before[x]);
        } else {
            assert(after[p] == before[p]);
        }
    }
}

} // verus!
