use vstd::prelude::*;
use vstd::arithmetic::div_mod::lemma_mod_breakdown;
use crate::bucket::{
    below, bucket, bucketed, keys_natural, lemma_assemble, lemma_below_all, lemma_below_mono,
    lemma_below_split, lemma_below_zero, lemma_bucket_prefix, lemma_bucketed_counts,
    lemma_bucketed_key_order, lemma_bucketed_stable, lemma_take_bucket, sorted_by,
};
use crate::order::{permutes, sorted_usize};

verus! {

/// The decimal digit of `x` at the place `exp` (1, 10, 100, ...).
pub open spec fn digit_key(exp: usize) -> spec_fn(usize) -> int {
    |x: usize| ((x / exp) % 10) as int
}

/// The remainder of `x` modulo `exp`: the digits of `x` below the place `exp`.
pub open spec fn low_digits(exp: usize) -> spec_fn(usize) -> int {
    |x: usize| (x % exp) as int
}

/// A stable pass on the digit at `exp` over a sequence ordered by its lower
/// digits orders it by the digits up to and including `exp`, and keeps its
/// elements.
pub proof fn lemma_radix_step(s: Seq<usize>, exp: usize)
    requires
        exp > 0,
        exp * 10 <= usize::MAX,
        sorted_by(s, low_digits(exp)),
    ensures
        sorted_by(bucketed(s, digit_key(exp), 10), low_digits((exp * 10) as usize)),
        permutes(bucketed(s, digit_key(exp), 10), s),
        bucketed(s, digit_key(exp), 10).len() == s.len(),
{
    let key = digit_key(exp);
    let c = bucketed(s, key, 10);
    lemma_bucketed_key_order(s, key, 10);
    lemma_bucketed_stable(s, key, 10, low_digits(exp));
    let e = exp as int;
    assert forall|i: int, j: int| 0 <= i < j < c.len() implies (c[i] % ((exp * 10) as usize)) as int
        <= (c[j] % ((exp * 10) as usize)) as int by {
        let x = c[i] as int;
        let y = c[j] as int;
        lemma_mod_breakdown(x, e, 10);
        lemma_mod_breakdown(y, e, 10);
        let dx = (x / e) % 10;
        let dy = (y / e) % 10;
        assert(key(c[i]) == dx && key(c[j]) == dy);
        assert(dx <= dy);
        if dx < dy {
            let rx = x % e;
            assert(0 <= rx < e);
            assert(y % e >= 0);
            assert(e * dx + rx < e * dy) by (nonlinear_arith)
                requires
                    dx < dy,
                    0 <= rx < e,
            ;
        }
    }
    assert forall|i: int| 0 <= i < s.len() implies key(#[trigger] s[i]) < 10 by {}
    lemma_below_all(s, key, 10);
    lemma_bucketed_counts(s, key, 10);
}

/// Stably sorts `arr` in place by the decimal digit at the place `exp`:
/// counts each digit, turns the counts into end positions, and places the
/// elements from the last one back.
pub fn counting_sort_by_digit(arr: &mut [usize], exp: usize)
    requires
        exp > 0,
    ensures
        final(arr)@ == bucketed(old(arr)@, digit_key(exp), 10),
{
    let ghost s = arr@;
    let ghost key = digit_key(exp);
    let n = arr.len();
    let mut output = vec![0; n];
    let mut count = vec![0; 10];
    proof {
        assert(keys_natural(key));
        assert forall|d: int| 0 <= d < 10 implies count@[d] == bucket(s.take(0), key, d).len() by {
            assert(bucket(s.take(0), key, d) =~= Seq::<usize>::empty()) by {
                reveal(Seq::filter);
            }
        }
    }
    let mut k: usize = 0;
    while k < n
        invariant
            n == arr@.len() == s.len(),
            arr@ == s,
            key == digit_key(exp),
            exp > 0,
            k <= n,
            count@.len() == 10,
            forall|d: int| 0 <= d < 10 ==> count@[d] == bucket(s.take(k as int), key, d).len(),
        decreases n - k,
    {
        let digit = (arr[k] / exp) % 10;
        proof {
            assert forall|d: int| 0 <= d < 10 implies bucket(s.take(k + 1), key, d).len() == bucket(s.take(k as int), key, d).len() + if d == digit { 1int } else { 0int } by {
                lemma_take_bucket(s, key, d, k as int);
            }
            lemma_bucket_prefix(s, key, digit as int, k + 1);
            assert(s.take(k + 1).len() == k + 1);
        }
        count.set(digit, count[digit] + 1);
        k += 1;
    }
    proof {
        assert(s.take(n as int) =~= s);
        lemma_below_split(s, key, 0);
        lemma_below_zero(s, key);
    }
    let mut i: usize = 1;
    while i < 10
        invariant
            n == arr@.len() == s.len(),
            arr@ == s,
            key == digit_key(exp),
            keys_natural(key),
            exp > 0,
            1 <= i <= 10,
            count@.len() == 10,
            forall|d: int| 0 <= d < i ==> count@[d] == below(s, key, d + 1).len(),
            forall|d: int| i <= d < 10 ==> count@[d] == bucket(s, key, d).len(),
        decreases 10 - i,
    {
        proof {
            lemma_below_split(s, key, i as int);
        }
        count.set(i, count[i] + count[i - 1]);
        i += 1;
    }
    let mut i: usize = n;
    proof {
        assert(s.take(n as int) =~= s);
        assert forall|d: int| 0 <= d < 10 implies count@[d] == below(s, key, d).len() + bucket(s.take(n as int), key, d).len() by {
            lemma_below_split(s, key, d);
        }
    }
    while i > 0
        invariant
            n == arr@.len() == s.len(),
            arr@ == s,
            key == digit_key(exp),
            keys_natural(key),
            exp > 0,
            i <= n,
            count@.len() == 10,
            output@.len() == n,
            forall|d: int| 0 <= d < 10 ==> count@[d] == below(s, key, d).len() + bucket(s.take(i as int), key, d).len(),
            forall|d: int, t: int|
                0 <= d < 10 && bucket(s.take(i as int), key, d).len() <= t < bucket(s, key, d).len()
                    ==> output@[below(s, key, d).len() + t] == #[trigger] bucket(s, key, d)[t],
        decreases i,
    {
        let digit = (arr[i - 1] / exp) % 10;
        let ghost d0 = digit as int;
        proof {
            lemma_take_bucket(s, key, d0, i - 1);
            lemma_bucket_prefix(s, key, d0, i as int);
            lemma_below_split(s, key, d0);
            assert(bucket(s, key, d0)[bucket(s.take(i - 1), key, d0).len() as int] == s[i - 1]);
            assert forall|d: int| 0 <= d < 10 && d != d0 implies bucket(s.take(i - 1), key, d) == bucket(s.take(i as int), key, d) by {
                lemma_take_bucket(s, key, d, i - 1);
            }
        }
        let ghost before = output@;
        count.set(digit, count[digit] - 1);
        output.set(count[digit], arr[i - 1]);
        proof {
            let placed = bucket(s.take(i - 1), key, d0).len() as int;
            assert forall|d: int, t: int|
                0 <= d < 10 && bucket(s.take(i - 1), key, d).len() <= t < bucket(s, key, d).len()
                implies output@[below(s, key, d).len() + t] == #[trigger] bucket(s, key, d)[t] by {
                if d != d0 || t != placed {
                    lemma_below_split(s, key, d);
                    if d < d0 {
                        lemma_below_mono(s, key, d + 1, d0);
                    } else if d > d0 {
                        lemma_below_mono(s, key, d0 + 1, d);
                    }
                    assert(output@[below(s, key, d).len() + t] == before[below(s, key, d).len() + t]);
                }
            }
        }
        i -= 1;
    }
    proof {
        assert forall|d: int, t: int| 0 <= d < 10 && 0 <= t < bucket(s, key, d).len() implies output@[below(s, key, d).len() + t] == #[trigger] bucket(s, key, d)[t] by {
            assert(bucket(s.take(0), key, d) =~= Seq::<usize>::empty()) by {
                reveal(Seq::filter);
            }
        }
        lemma_below_all(s, key, 10);
        lemma_assemble(output@, s, key, 10);
        assert(output@.take(n as int) =~= output@);
    }
    let mut k: usize = 0;
    while k < n
        invariant
            n == arr@.len() == output@.len(),
            k <= n,
            forall|p: int| 0 <= p < k ==> arr@[p] == output@[p],
        decreases n - k,
    {
        arr[k] = output[k];
        k += 1;
    }
    proof {
        assert(arr@ =~= output@);
    }
}

/// Sorts `arr` in place, least significant decimal digit first, with one
/// stable pass per digit of the largest element.
pub fn radix_sort(arr: &mut [usize])
    requires
        forall|k: int| 0 <= k < old(arr)@.len() ==> old(arr)@[k] <= usize::MAX / 10,
    ensures
        sorted_usize(final(arr)@),
        permutes(final(arr)@, old(arr)@),
{
    let n = arr.len();
    if n <= 1 {
        return;
    }
    let mut max_val = arr[0];
    let mut k: usize = 1;
    while k < n
        invariant
            n == arr@.len(),
            1 <= k <= n,
            forall|p: int| 0 <= p < k ==> arr@[p] <= max_val,
            exists|p: int| 0 <= p < n && arr@[p] == max_val,
        decreases n - k,
    {
        if arr[k] > max_val {
            max_val = arr[k];
        }
        k += 1;
    }
    let mut exp: usize = 1;
    proof {
        assert forall|i: int, j: int| 0 <= i < j < arr@.len() implies low_digits(1)(arr@[i]) <= low_digits(1)(arr@[j]) by {}
    }
    while max_val / exp > 0
        invariant
            n == arr@.len(),
            exp > 0,
            max_val <= usize::MAX / 10,
            forall|p: int| 0 <= p < n ==> arr@[p] <= max_val,
            permutes(arr@, old(arr)@),
            sorted_by(arr@, low_digits(exp)),
        decreases usize::MAX - exp,
    {
        assert(exp <= max_val) by {
            if exp > max_val {
                assert(max_val / exp == 0) by (nonlinear_arith)
                    requires exp > max_val;
            }
        }
        let ghost s = arr@;
        counting_sort_by_digit(arr, exp);
        proof {
            lemma_radix_step(s, exp);
            assert forall|p: int| 0 <= p < n implies arr@[p] <= max_val by {
                vstd::seq_lib::to_multiset_contains(s, arr@[p]);
                vstd::seq_lib::to_multiset_contains(arr@, arr@[p]);
                assert(arr@.contains(arr@[p]));
                let q = choose|q: int| 0 <= q < n && s[q] == arr@[p];
            }
        }
        exp = exp * 10;
    }
    proof {
        assert forall|i: int, j: int| 0 <= i < j < n implies arr@[i] <= arr@[j] by {
            assert(max_val < exp) by (nonlinear_arith)
                requires max_val / exp == 0, exp > 0;
            vstd::arithmetic::div_mod::lemma_small_mod(arr@[i] as nat, exp as nat);
            vstd::arithmetic::div_mod::lemma_small_mod(arr@[j] as nat, exp as nat);
            assert(low_digits(exp)(arr@[i]) <= low_digits(exp)(arr@[j]));
        }
    }
}

} // verus!
