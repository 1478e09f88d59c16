use vstd::prelude::*;
use vstd::seq_lib::{lemma_multiset_commutative, to_multiset_build};

verus! {

/// The elements of `s` whose key is `d`, in their order in `s`.
pub open spec fn bucket(s: Seq<usize>, key: spec_fn(usize) -> int, d: int) -> Seq<usize> {
    s.filter(|x: usize| key(x) == d)
}

/// The elements of `s` whose key is below `d`, in their order in `s`.
pub open spec fn below(s: Seq<usize>, key: spec_fn(usize) -> int, d: int) -> Seq<usize> {
    s.filter(|x: usize| key(x) < d)
}

/// The buckets of the keys `0..m`, one after the other: `s` stably sorted by
/// key, keeping only the elements whose key is below `m`.
pub open spec fn bucketed(s: Seq<usize>, key: spec_fn(usize) -> int, m: int) -> Seq<usize>
    decreases m,
{
    if m <= 0 {
        Seq::empty()
    } else {
        bucketed(s, key, m - 1) + bucket(s, key, m - 1)
    }
}

/// No key is negative.
pub open spec fn keys_natural(key: spec_fn(usize) -> int) -> bool {
    forall|x: usize| #[trigger] key(x) >= 0
}

/// `s` is in non-decreasing order of `f`.
pub open spec fn sorted_by(s: Seq<usize>, f: spec_fn(usize) -> int) -> bool {
    forall|i: int, j: int| 0 <= i < j < s.len() ==> f(s[i]) <= f(s[j])
}

/// The keys below `d + 1` are those below `d` and those equal to `d`.
pub proof fn lemma_below_split(s: Seq<usize>, key: spec_fn(usize) -> int, d: int)
    ensures
        below(s, key, d + 1).len() == below(s, key, d).len() + bucket(s, key, d).len(),
        below(s, key, d + 1).to_multiset() == below(s, key, d).to_multiset().add(
            bucket(s, key, d).to_multiset(),
        ),
    decreases s.len(),
{
    reveal(Seq::filter);
    broadcast use vstd::multiset::group_multiset_axioms;

    if s.len() > 0 {
        let t = s.drop_last();
        let x = s.last();
        lemma_below_split(t, key, d);
        to_multiset_build(below(t, key, d + 1), x);
        to_multiset_build(below(t, key, d), x);
        to_multiset_build(bucket(t, key, d), x);
        if key(x) < d {
            assert(below(s, key, d + 1).to_multiset() =~= below(s, key, d).to_multiset().add(
                bucket(s, key, d).to_multiset(),
            ));
        } else if key(x) == d {
            assert(below(s, key, d + 1).to_multiset() =~= below(s, key, d).to_multiset().add(
                bucket(s, key, d).to_multiset(),
            ));
        }
    } else {
        s.to_multiset_ensures();
        vstd::multiset::lemma_multiset_empty_len(s.to_multiset());
    }
}

/// Fewer elements lie below a smaller bound.
pub proof fn lemma_below_mono(s: Seq<usize>, key: spec_fn(usize) -> int, d1: int, d2: int)
    requires
        d1 <= d2,
    ensures
        below(s, key, d1).len() <= below(s, key, d2).len(),
    decreases d2 - d1,
{
    if d1 < d2 {
        lemma_below_mono(s, key, d1, d2 - 1);
        lemma_below_split(s, key, d2 - 1);
    }
}

/// With natural keys nothing lies below zero.
pub proof fn lemma_below_zero(s: Seq<usize>, key: spec_fn(usize) -> int)
    requires
        keys_natural(key),
    ensures
        below(s, key, 0) == Seq::<usize>::empty(),
    decreases s.len(),
{
    reveal(Seq::filter);
    if s.len() > 0 {
        lemma_below_zero(s.drop_last(), key);
        assert(key(s.last()) >= 0);
    }
}

/// When every key is below `m`, nothing is left out.
pub proof fn lemma_below_all(s: Seq<usize>, key: spec_fn(usize) -> int, m: int)
    requires
        forall|i: int| 0 <= i < s.len() ==> key(#[trigger] s[i]) < m,
    ensures
        below(s, key, m) == s,
    decreases s.len(),
{
    reveal(Seq::filter);
    if s.len() > 0 {
        let t = s.drop_last();
        assert forall|i: int| 0 <= i < t.len() implies key(#[trigger] t[i]) < m by {
            assert(t[i] == s[i]);
        }
        lemma_below_all(t, key, m);
        assert(s.last() == s[s.len() - 1]);
        assert(s =~= t.push(s.last()));
    }
}

/// The buckets of `0..m` hold exactly the elements whose key is below `m`.
pub proof fn lemma_bucketed_counts(s: Seq<usize>, key: spec_fn(usize) -> int, m: int)
    requires
        keys_natural(key),
        m >= 0,
    ensures
        bucketed(s, key, m).len() == below(s, key, m).len(),
        bucketed(s, key, m).to_multiset() == below(s, key, m).to_multiset(),
    decreases m,
{
    if m > 0 {
        lemma_bucketed_counts(s, key, m - 1);
        lemma_below_split(s, key, m - 1);
        lemma_multiset_commutative(bucketed(s, key, m - 1), bucket(s, key, m - 1));
    } else {
        lemma_below_zero(s, key);
    }
}

/// A bucket of a prefix one longer gains the next element when its key matches.
pub proof fn lemma_take_bucket(s: Seq<usize>, key: spec_fn(usize) -> int, d: int, i: int)
    requires
        0 <= i < s.len(),
    ensures
        bucket(s.take(i + 1), key, d) == if key(s[i]) == d {
            bucket(s.take(i), key, d).push(s[i])
        } else {
            bucket(s.take(i), key, d)
        },
{
    reveal(Seq::filter);
    assert(s.take(i + 1).drop_last() =~= s.take(i));
}

/// The bucket of a prefix is a prefix of the bucket.
pub proof fn lemma_bucket_prefix(s: Seq<usize>, key: spec_fn(usize) -> int, d: int, i: int)
    requires
        0 <= i <= s.len(),
    ensures
        bucket(s, key, d) == bucket(s.take(i), key, d) + bucket(s.skip(i), key, d),
{
    assert(s =~= s.take(i) + s.skip(i));
    Seq::filter_distributes_over_add(s.take(i), s.skip(i), |x: usize| key(x) == d);
}

/// A sequence that holds each bucket at its place is the bucketed sequence.
pub proof fn lemma_assemble(b: Seq<usize>, s: Seq<usize>, key: spec_fn(usize) -> int, m: int)
    requires
        keys_natural(key),
        m >= 0,
        below(s, key, m).len() <= b.len(),
        forall|d: int, t: int|
            0 <= d < m && 0 <= t < bucket(s, key, d).len() ==> b[below(s, key, d).len() + t]
                == #[trigger] bucket(s, key, d)[t],
    ensures
        b.take(below(s, key, m).len() as int) == bucketed(s, key, m),
    decreases m,
{
    if m > 0 {
        lemma_below_split(s, key, m - 1);
        lemma_assemble(b, s, key, m - 1);
        let lo = below(s, key, m - 1).len() as int;
        let bk = bucket(s, key, m - 1);
        assert forall|t: int| 0 <= t < bk.len() implies b.take(lo + bk.len())[lo + t] == bk[t] by {
            assert(b[lo + t] == bk[t]);
        }
        assert(b.take(below(s, key, m).len() as int) =~= b.take(lo) + bk);
    } else {
        lemma_below_zero(s, key);
        assert(b.take(0) =~= Seq::<usize>::empty());
    }
}

/// Every element of the buckets of `0..m` has a key in `0..m`, and the keys
/// do not decrease along the bucketed sequence.
pub proof fn lemma_bucketed_key_order(s: Seq<usize>, key: spec_fn(usize) -> int, m: int)
    requires
        keys_natural(key),
        m >= 0,
    ensures
        forall|i: int|
            0 <= i < bucketed(s, key, m).len() ==> key(#[trigger] bucketed(s, key, m)[i]) < m,
        sorted_by(bucketed(s, key, m), key),
    decreases m,
{
    if m > 0 {
        lemma_bucketed_key_order(s, key, m - 1);
        let a = bucketed(s, key, m - 1);
        let bk = bucket(s, key, m - 1);
        lemma_bucket_keys(s, key, m - 1);
        let c = bucketed(s, key, m);
        assert(c == a + bk);
        assert forall|i: int| 0 <= i < c.len() implies key(#[trigger] c[i]) < m by {
            if i >= a.len() {
                assert(c[i] == bk[i - a.len()]);
            }
        }
        assert forall|i: int, j: int| 0 <= i < j < c.len() implies key(c[i]) <= key(c[j]) by {
            if j >= a.len() {
                assert(c[j] == bk[j - a.len()]);
                if i >= a.len() {
                    assert(c[i] == bk[i - a.len()]);
                }
            }
        }
    }
}

/// Every element of the bucket of `d` has key `d`.
pub proof fn lemma_bucket_keys(s: Seq<usize>, key: spec_fn(usize) -> int, d: int)
    ensures
        forall|t: int| 0 <= t < bucket(s, key, d).len() ==> key(#[trigger] bucket(s, key, d)[t]) == d,
    decreases s.len(),
{
    reveal(Seq::filter);
    if s.len() > 0 {
        lemma_bucket_keys(s.drop_last(), key, d);
    }
}

/// A bucket keeps the order of a sorted sequence.
pub proof fn lemma_bucket_sorted(s: Seq<usize>, key: spec_fn(usize) -> int, d: int, f: spec_fn(usize) -> int)
    requires
        sorted_by(s, f),
    ensures
        sorted_by(bucket(s, key, d), f),
        forall|i: int| 0 <= i < bucket(s, key, d).len() ==> s.contains(#[trigger] bucket(s, key, d)[i]),
    decreases s.len(),
{
    reveal(Seq::filter);
    if s.len() > 0 {
        let t = s.drop_last();
        assert(sorted_by(t, f));
        lemma_bucket_sorted(t, key, d, f);
        let ft = bucket(t, key, d);
        assert forall|i: int| 0 <= i < ft.len() implies f(#[trigger] ft[i]) <= f(s.last()) by {
            assert(t.contains(ft[i]));
            let k = choose|k: int| 0 <= k < t.len() && t[k] == ft[i];
            assert(s[k] == t[k]);
        }
        assert forall|i: int| 0 <= i < bucket(s, key, d).len() implies s.contains(#[trigger] bucket(s, key, d)[i]) by {
            if i < ft.len() {
                assert(t.contains(ft[i]));
                let k = choose|k: int| 0 <= k < t.len() && t[k] == ft[i];
                assert(s[k] == t[k]);
            } else {
                assert(s[s.len() - 1] == s.last());
            }
        }
    }
}

/// Bucketing keeps the order of a sorted sequence among elements of equal key.
pub proof fn lemma_bucketed_stable(
    s: Seq<usize>,
    key: spec_fn(usize) -> int,
    m: int,
    f: spec_fn(usize) -> int,
)
    requires
        keys_natural(key),
        m >= 0,
        sorted_by(s, f),
    ensures
        forall|i: int, j: int|
            0 <= i < j < bucketed(s, key, m).len() && key(bucketed(s, key, m)[i]) == key(
                bucketed(s, key, m)[j],
            ) ==> f(bucketed(s, key, m)[i]) <= f(bucketed(s, key, m)[j]),
    decreases m,
{
    if m > 0 {
        lemma_bucketed_stable(s, key, m - 1, f);
        lemma_bucketed_key_order(s, key, m - 1);
        lemma_bucket_keys(s, key, m - 1);
        lemma_bucket_sorted(s, key, m - 1, f);
        let a = bucketed(s, key, m - 1);
        let bk = bucket(s, key, m - 1);
        let c = bucketed(s, key, m);
        assert(c == a + bk);
        assert forall|i: int, j: int| 0 <= i < j < c.len() && key(c[i]) == key(c[j]) implies f(c[i]) <= f(c[j]) by {
            if j >= a.len() {
                assert(c[j] == bk[j - a.len()]);
                if i >= a.len() {
                    assert(c[i] == bk[i - a.len()]);
                } else {
                    assert(c[i] == a[i]);
                }
            } else {
                assert(c[i] == a[i] && c[j] == a[j]);
            }
        }
    }
}

} // verus!
