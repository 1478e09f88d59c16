use vstd::prelude::*;
use crate::order::{le, lemma_gt_facts, occurs_in, permutes, sorted_le, swap, total_order};

verus! {

/// Every node `k` of the tree on positions `0..=r` whose parent lies at or
/// after `l` is no larger than its parent.
pub open spec fn heap_from<T: PartialOrd>(s: Seq<T>, l: int, r: int) -> bool {
    forall|k: int| #![trigger s[k]] 1 <= k <= r && l <= (k - 1) / 2 ==> le(s[k], s[(k - 1) / 2])
}

/// The root of a heap on `0..=r` is its largest element.
proof fn lemma_root_is_max<T: PartialOrd>(s: Seq<T>, r: int, k: int)
    requires
        total_order::<T>(),
        heap_from(s, 0, r),
        0 <= k <= r < s.len(),
    ensures
        le(s[k], s[0]),
    decreases k,
{
    if k > 0 {
        lemma_root_is_max(s, r, (k - 1) / 2);
    } else {
        lemma_gt_facts(s[0], s[0]);
    }
}

/// Moves the element at `l` down the tree on positions `0..=r` until it is no
/// smaller than its children, so that the subtree at `l` becomes a heap.
pub fn sift_down<T: Ord + Copy>(arr: &mut [T], l: usize, r: usize)
    requires
        total_order::<T>(),
        r < old(arr)@.len() <= usize::MAX / 2,
        heap_from(old(arr)@, l + 1, r as int),
    ensures
        final(arr)@.len() == old(arr)@.len(),
        permutes(final(arr)@, old(arr)@),
        heap_from(final(arr)@, l as int, r as int),
        forall|k: int| 0 <= k < final(arr)@.len() && (k < l || k > r) ==> final(arr)@[k] == old(arr)@[k],
        // each element of the range comes from the range
        forall|k: int|
            #![trigger final(arr)@[k]]
            l <= k <= r ==> occurs_in(old(arr)@, final(arr)@[k], l as int, r as int),
{
    if l >= r {
        proof {
            assert forall|k: int| #![trigger arr@[k]] l <= k <= r implies occurs_in(old(arr)@, arr@[k], l as int, r as int) by {
                assert(arr@ == old(arr)@);
                assert(arr@ == old(arr)@);
            assert(l <= k <= r && old(arr)@[k] == arr@[k]);
            }
        }
        return;
    }
    let mut fa = l;
    let mut ch = l * 2 + 1;
    proof {
        assert forall|k: int| #![trigger arr@[k]] l <= k <= r implies occurs_in(old(arr)@, arr@[k], l as int, r as int) by {
            assert(arr@ == old(arr)@);
            assert(l <= k <= r && old(arr)@[k] == arr@[k]);
        }
    }
    while ch <= r
        invariant
            total_order::<T>(),
            arr@.len() == old(arr)@.len() <= usize::MAX / 2,
            r < arr@.len(),
            l <= fa <= r,
            ch == fa * 2 + 1,
            permutes(arr@, old(arr)@),
            forall|k: int| 0 <= k < arr@.len() && (k < l || k > r) ==> arr@[k] == old(arr)@[k],
            forall|k: int|
                #![trigger arr@[k]]
                l <= k <= r ==> occurs_in(old(arr)@, arr@[k], l as int, r as int),
            // every edge but those out of fa holds
            forall|k: int|
                #![trigger arr@[k]]
                1 <= k <= r && l <= (k - 1) / 2 && (k - 1) / 2 != fa ==> le(arr@[k], arr@[(k - 1) / 2]),
            // the parent of fa is no smaller than fa's children
            forall|k: int|
                #![trigger arr@[k]]
                1 <= k <= r && (k - 1) / 2 == fa && fa > l ==> le(arr@[k], arr@[(fa - 1) / 2]),
        decreases r - fa,
    {
        if ch < r {
            proof {
                lemma_gt_facts(arr@[ch + 1], arr@[ch as int]);
            }
        }
        if ch < r && arr[ch + 1] > arr[ch] {
            ch += 1;
        }
        proof {
            lemma_gt_facts(arr@[fa as int], arr@[ch as int]);
            lemma_gt_facts(arr@[ch as int], arr@[fa as int]);
        }
        if arr[fa] >= arr[ch] {
            return;
        }
        swap(arr, fa, ch);
        fa = ch;
        ch = ch * 2 + 1;
    }
}

/// Sorts `arr` in place: builds a max-heap, then repeatedly moves its root to
/// the end of the unsorted part.
pub fn heap_sort<T: Ord + Copy>(arr: &mut [T])
    requires
        total_order::<T>(),
        old(arr)@.len() <= usize::MAX / 2,
    ensures
        sorted_le(final(arr)@),
        permutes(final(arr)@, old(arr)@),
{
    let n = arr.len();
    if n <= 1 {
        return;
    }
    let mut i: usize = (n - 1 - 1) / 2 + 1;
    while i > 0
        invariant
            total_order::<T>(),
            1 < n == arr@.len() <= usize::MAX / 2,
            i <= (n - 2) / 2 + 1,
            permutes(arr@, old(arr)@),
            heap_from(arr@, i as int, n - 1),
        decreases i,
    {
        i -= 1;
        sift_down(arr, i, n - 1);
    }
    let mut i: usize = n - 1;
    while i > 0
        invariant
            total_order::<T>(),
            1 < n == arr@.len() <= usize::MAX / 2,
            i < n,
            permutes(arr@, old(arr)@),
            heap_from(arr@, 0, i as int),
            // the part after i is sorted and no smaller than the heap
            forall|a: int, b: int| i < a < b < n ==> le(arr@[a], arr@[b]),
            forall|a: int, b: int| 0 <= a <= i < b < n ==> le(arr@[a], arr@[b]),
        decreases i,
    {
        proof {
            assert forall|k: int| 0 <= k <= i implies le(#[trigger] arr@[k], arr@[0]) by {
                lemma_root_is_max(arr@, i as int, k);
            }
        }
        swap(arr, i, 0);
        sift_down(arr, 0, i - 1);
        i -= 1;
    }
}

} // verus!
