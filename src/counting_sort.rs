use vstd::prelude::*;
use crate::bucket::{
    below, bucket, keys_natural, lemma_assemble, lemma_below_all, lemma_below_mono,
    lemma_below_split, lemma_below_zero, lemma_bucket_prefix, lemma_bucketed_counts,
    lemma_bucketed_key_order, lemma_take_bucket,
};
use crate::order::{permutes, sorted_usize};

verus! {

/// An element as its own key.
pub open spec fn value_key() -> spec_fn(usize) -> int {
    |x: usize| x as int
}

/// Sorts `arr` in place by counting: counts each value up to the largest,
/// turns the counts into end positions, and places the elements from the last
/// one back.
pub fn counting_sort(arr: &mut [usize])
    requires
        forall|k: int| 0 <= k < old(arr)@.len() ==> old(arr)@[k] < usize::MAX,
    ensures
        sorted_usize(final(arr)@),
        permutes(final(arr)@, old(arr)@),
{
    let ghost s = arr@;
    let ghost key = value_key();
    let n = arr.len();
    if n <= 1 {
        return;
    }
    let mut mx = arr[0];
    let mut k: usize = 1;
    while k < n
        invariant
            n == arr@.len() == s.len(),
            arr@ == s,
            1 <= k <= n,
            forall|p: int| 0 <= p < k ==> arr@[p] <= mx,
            exists|p: int| 0 <= p < n && arr@[p] == mx,
        decreases n - k,
    {
        if arr[k] > mx {
            mx = arr[k];
        }
        k += 1;
    }
    let m = mx + 1;
    let mut output = vec![0; n];
    let mut count = vec![0; m];
    proof {
        assert(keys_natural(key));
        assert forall|d: int| 0 <= d < m implies count@[d] == bucket(s.take(0), key, d).len() by {
            assert(bucket(s.take(0), key, d) =~= Seq::<usize>::empty()) by {
                reveal(Seq::filter);
            }
        }
    }
    let mut k: usize = 0;
    while k < n
        invariant
            n == arr@.len() == s.len(),
            arr@ == s,
            key == value_key(),
            m == mx + 1,
            forall|p: int| 0 <= p < n ==> s[p] <= mx,
            k <= n,
            count@.len() == m,
            forall|d: int| 0 <= d < m ==> count@[d] == bucket(s.take(k as int), key, d).len(),
        decreases n - k,
    {
        let value = arr[k];
        proof {
            assert forall|d: int| 0 <= d < m implies bucket(s.take(k + 1), key, d).len() == bucket(s.take(k as int), key, d).len() + if d == value { 1int } else { 0int } by {
                lemma_take_bucket(s, key, d, k as int);
            }
            lemma_bucket_prefix(s, key, value as int, k + 1);
            assert(s.take(k + 1).len() == k + 1);
        }
        count.set(value, count[value] + 1);
        k += 1;
    }
    proof {
        assert(s.take(n as int) =~= s);
        lemma_below_split(s, key, 0);
        lemma_below_zero(s, key);
    }
    let mut i: usize = 1;
    while i < m
        invariant
            n == arr@.len() == s.len(),
            arr@ == s,
            key == value_key(),
            m == mx + 1,
            forall|p: int| 0 <= p < n ==> s[p] <= mx,
            keys_natural(key),
            1 <= i <= m,
            count@.len() == m,
            forall|d: int| 0 <= d < i ==> count@[d] == below(s, key, d + 1).len(),
            forall|d: int| i <= d < m ==> count@[d] == bucket(s, key, d).len(),
        decreases m - i,
    {
        proof {
            lemma_below_split(s, key, i as int);
        }
        count.set(i, count[i] + count[i - 1]);
        i += 1;
    }
    let mut i: usize = n;
    proof {
        assert(s.take(n as int) =~= s);
        assert forall|d: int| 0 <= d < m implies count@[d] == below(s, key, d).len() + bucket(s.take(n as int), key, d).len() by {
            lemma_below_split(s, key, d);
        }
    }
    while i > 0
        invariant
            n == arr@.len() == s.len(),
            arr@ == s,
            key == value_key(),
            m == mx + 1,
            forall|p: int| 0 <= p < n ==> s[p] <= mx,
            keys_natural(key),
            i <= n,
            count@.len() == m,
            output@.len() == n,
            forall|d: int| 0 <= d < m ==> count@[d] == below(s, key, d).len() + bucket(s.take(i as int), key, d).len(),
            forall|d: int, t: int|
                0 <= d < m && bucket(s.take(i as int), key, d).len() <= t < bucket(s, key, d).len()
                    ==> output@[below(s, key, d).len() + t] == #[trigger] bucket(s, key, d)[t],
        decreases i,
    {
        let value = arr[i - 1];
        let ghost d0 = value as int;
        proof {
            lemma_take_bucket(s, key, d0, i - 1);
            lemma_bucket_prefix(s, key, d0, i as int);
            lemma_below_split(s, key, d0);
            assert(bucket(s, key, d0)[bucket(s.take(i - 1), key, d0).len() as int] == s[i - 1]);
            assert forall|d: int| 0 <= d < m && d != d0 implies bucket(s.take(i - 1), key, d) == bucket(s.take(i as int), key, d) by {
                lemma_take_bucket(s, key, d, i - 1);
            }
        }
        let ghost before = output@;
        count.set(value, count[value] - 1);
        output.set(count[value], arr[i - 1]);
        proof {
            let placed = bucket(s.take(i - 1), key, d0).len() as int;
            assert forall|d: int, t: int|
                0 <= d < m && bucket(s.take(i - 1), key, d).len() <= t < bucket(s, key, d).len()
                implies output@[below(s, key, d).len() + t] == #[trigger] bucket(s, key, d)[t] by {
                if d != d0 || t != placed {
                    lemma_below_split(s, key, d);
                    if d < d0 {
                        lemma_below_mono(s, key, d + 1, d0);
                    } else if d > d0 {
                        lemma_below_mono(s, key, d0 + 1, d);
                    }
                    assert(output@[below(s, key, d).len() + t] == before[below(s, key, d).len() + t]);
                }
            }
        }
        i -= 1;
    }
    proof {
        assert forall|d: int, t: int| 0 <= d < m && 0 <= t < bucket(s, key, d).len() implies output@[below(s, key, d).len() + t] == #[trigger] bucket(s, key, d)[t] by {
            assert(bucket(s.take(0), key, d) =~= Seq::<usize>::empty()) by {
                reveal(Seq::filter);
            }
        }
        lemma_below_all(s, key, m as int);
        lemma_assemble(output@, s, key, m as int);
        assert(output@.take(n as int) =~= output@);
    }
    let mut k: usize = 0;
    while k < n
        invariant
            n == arr@.len() == output@.len(),
            k <= n,
            forall|p: int| 0 <= p < k ==> arr@[p] == output@[p],
        decreases n - k,
    {
        arr[k] = output[k];
        k += 1;
    }
    proof {
        assert(arr@ =~= output@);
        lemma_bucketed_key_order(s, key, m as int);
        lemma_bucketed_counts(s, key, m as int);
    }
}

} // verus!
