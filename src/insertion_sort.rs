use vstd::prelude::*;
use vstd::seq_lib::to_multiset_update;
use crate::order::{gt, le, lemma_gt_facts, permutes, sorted_le, total_order};

verus! {

/// Sorts `arr` in place by inserting each element into the sorted prefix
/// before it, shifting larger elements one place to the right.
pub fn insertion_sort<T: PartialOrd + Copy>(arr: &mut [T])
    requires
        total_order::<T>(),
    ensures
        sorted_le(final(arr)@),
        permutes(final(arr)@, old(arr)@),
{
    let n = arr.len();
    if n <= 1 {
        return;
    }
    let mut i: usize = 1;
    while i < n
        invariant
            total_order::<T>(),
            n == arr@.len(),
            1 <= i <= n,
            permutes(arr@, old(arr)@),
            forall|a: int, b: int| 0 <= a < b < i ==> le(arr@[a], arr@[b]),
        decreases n - i,
    {
        let mut j = i;
        let cur = arr[i];
        let ghost start = arr@;
        assert(arr@.update(j as int, cur) =~= start);
        while j > 0 && arr[j - 1] > cur
            invariant
                total_order::<T>(),
                n == arr@.len(),
                1 <= i < n,
                j <= i,
                start.len() == n,
                cur == start[i as int],
                // the hole at j: putting cur there gives back the elements of start
                permutes(arr@.update(j as int, cur), start),
                forall|a: int| 0 <= a < j ==> arr@[a] == start[a],
                forall|a: int| j < a <= i ==> arr@[a] == start[a - 1] && gt(arr@[a], cur),
                forall|a: int| i < a < n ==> arr@[a] == start[a],
                forall|a: int, b: int| 0 <= a < b < i ==> le(start[a], start[b]),
            decreases j,
        {
            let prev = arr[j - 1];
            let ghost before = arr@;
            arr[j] = prev;
            proof {
                // moving the hole left keeps the same elements
                let h0 = before.update(j as int, cur);
                let h1 = arr@.update(j - 1, cur);
                assert(h1 =~= h0.update(j as int, prev).update(j - 1, cur));
                to_multiset_update(h0, j as int, prev);
                to_multiset_update(h0.update(j as int, prev), j - 1, cur);
                broadcast use vstd::multiset::group_multiset_axioms;
                broadcast use vstd::seq_lib::to_multiset_contains;

                assert(h0[j as int] == cur);
                assert(h0.to_multiset().contains(cur));
                assert(h0.update(j as int, prev)[j - 1] == prev);
                assert(h1.to_multiset() =~= h0.to_multiset());
            }
            j = j - 1;
        }
        let ghost hole = arr@;
        assert(j > 0 ==> !gt(hole[j - 1], cur));
        arr[j] = cur;
        proof {
            assert(arr@ =~= hole.update(j as int, cur));
            assert forall|a: int, b: int| 0 <= a < b < i + 1 implies le(arr@[a], arr@[b]) by {
                if a < j && b > j {
                    assert(le(start[a], start[b - 1]));
                } else if a < j && b == j {
                    lemma_gt_facts(hole[j - 1], cur);
                    if a < j - 1 {
                        assert(le(start[a], start[j - 1]));
                    }
                } else if a > j {
                    assert(le(start[a - 1], start[b - 1]));
                } else if a == j {
                    lemma_gt_facts(hole[b], cur);
                } else {
                    assert(b < j);
                    assert(le(start[a], start[b]));
                }
            }
        }
        i += 1;
    }
}

} // verus!
