use vstd::prelude::*;
use vstd::multiset::Multiset;
use vstd::seq_lib::{lemma_multiset_commutative, to_multiset_build};
use crate::order::{le, lemma_gt_facts, lemma_permutes_range, permutes, sorted_range_le, total_order};

verus! {

/// Sorts the positions `l..=r` of `arr` in place: sorts each half, then
/// merges the halves through a buffer. The rest of `arr` is left as it is.
pub fn merge_sort<T: PartialOrd + Copy>(arr: &mut [T], l: usize, r: usize)
    requires
        total_order::<T>(),
        l >= r || r < old(arr)@.len(),
    ensures
        final(arr)@.len() == old(arr)@.len(),
        l < r ==> sorted_range_le(final(arr)@, l as int, r + 1),
        forall|k: int| 0 <= k < final(arr)@.len() && (k < l || k > r) ==> final(arr)@[k] == old(arr)@[k],
        permutes(final(arr)@, old(arr)@),
        l >= r ==> final(arr)@ == old(arr)@,
    decreases r - l,
{
    if l >= r {
        return;
    }
    let d = r - l;
    assert(d >> 1 == d / 2) by (bit_vector);
    let mid = l + ((r - l) >> 1);
    merge_sort(arr, l, mid);
    merge_sort(arr, mid + 1, r);
    let ghost a1 = arr@;
    let n = arr.len();

    let mut i = l;
    let mut j = mid + 1;
    let mut tmp: Vec<T> = Vec::new();
    proof {
        broadcast use vstd::multiset::group_multiset_axioms;
        assert(a1.subrange(l as int, l as int) =~= Seq::<T>::empty());
        assert(a1.subrange(mid + 1, mid + 1) =~= Seq::<T>::empty());
        Seq::<T>::empty().to_multiset_ensures();
        vstd::multiset::lemma_multiset_empty_len(Seq::<T>::empty().to_multiset());
        assert(Seq::<T>::empty().to_multiset() =~= Multiset::<T>::empty());
        assert(tmp@ =~= Seq::<T>::empty());
    }
    while i <= mid || j <= r
        invariant
            total_order::<T>(),
            l <= mid < r < n == arr@.len(),
            arr@ == a1,
            l <= i <= mid + 1,
            mid + 1 <= j <= r + 1,
            tmp@.len() == (i - l) + (j - mid - 1),
            sorted_range_le(a1, l as int, mid + 1),
            sorted_range_le(a1, mid + 1, r + 1),
            tmp@.to_multiset() == a1.subrange(l as int, i as int).to_multiset().add(
                a1.subrange(mid + 1, j as int).to_multiset(),
            ),
            sorted_range_le(tmp@, 0, tmp@.len() as int),
            tmp@.len() > 0 && i <= mid ==> le(tmp@.last(), a1[i as int]),
            tmp@.len() > 0 && j <= r ==> le(tmp@.last(), a1[j as int]),
        decreases (mid + 1 - i) + (r + 1 - j),
    {
        if j > r || (i <= mid && arr[i] <= arr[j]) {
            proof {
                let x = a1[i as int];
                assert forall|p: int, q: int| 0 <= p < q < tmp@.len() + 1 implies le(tmp@.push(x)[p], tmp@.push(x)[q]) by {
                    if q == tmp@.len() && p < tmp@.len() - 1 {
                        assert(le(tmp@[p], tmp@.last()));
                    }
                }
                assert(a1.subrange(l as int, i + 1) =~= a1.subrange(l as int, i as int).push(a1[i as int]));
                to_multiset_build(a1.subrange(l as int, i as int), a1[i as int]);
                to_multiset_build(tmp@, a1[i as int]);
                broadcast use vstd::multiset::group_multiset_axioms;
                assert(tmp@.push(a1[i as int]).to_multiset() =~= a1.subrange(l as int, i + 1).to_multiset().add(
                    a1.subrange(mid + 1, j as int).to_multiset()));
            }
            tmp.push(arr[i]);
            i += 1;
        } else {
            proof {
                let x = a1[j as int];
                if i <= mid {
                    lemma_gt_facts(a1[i as int], x);
                }
                assert forall|p: int, q: int| 0 <= p < q < tmp@.len() + 1 implies le(tmp@.push(x)[p], tmp@.push(x)[q]) by {
                    if q == tmp@.len() && p < tmp@.len() - 1 {
                        assert(le(tmp@[p], tmp@.last()));
                    }
                }
                assert(a1.subrange(mid + 1, j + 1) =~= a1.subrange(mid + 1, j as int).push(a1[j as int]));
                to_multiset_build(a1.subrange(mid + 1, j as int), a1[j as int]);
                to_multiset_build(tmp@, a1[j as int]);
                broadcast use vstd::multiset::group_multiset_axioms;
                assert(tmp@.push(a1[j as int]).to_multiset() =~= a1.subrange(l as int, i as int).to_multiset().add(
                    a1.subrange(mid + 1, j + 1).to_multiset()));
            }
            tmp.push(arr[j]);
            j += 1;
        }
    }
    proof {
        assert(a1.subrange(l as int, r + 1) =~= a1.subrange(l as int, mid + 1) + a1.subrange(mid + 1, r + 1));
        lemma_multiset_commutative(a1.subrange(l as int, mid + 1), a1.subrange(mid + 1, r + 1));
    }
    let mut k: usize = 0;
    while k < tmp.len()
        invariant
            total_order::<T>(),
            l < r < n == arr@.len(),
            tmp@.len() == r - l + 1,
            a1.len() == n,
            sorted_range_le(tmp@, 0, tmp@.len() as int),
            k <= tmp@.len(),
            forall|p: int| 0 <= p < k ==> arr@[l + p] == tmp@[p],
            forall|p: int| 0 <= p < n && (p < l || p >= l + k) ==> arr@[p] == a1[p],
        decreases tmp@.len() - k,
    {
        arr[l + k] = tmp[k];
        k += 1;
    }
    proof {
        assert(arr@.subrange(l as int, r + 1) =~= tmp@);
        assert forall|a: int, b: int| l <= a < b < r + 1 implies le(arr@[a], arr@[b]) by {
            assert(arr@[a] == tmp@[a - l] && arr@[b] == tmp@[b - l]);
        }
        lemma_permutes_range(arr@, a1, l as int, r + 1);
    }
}

} // verus!
