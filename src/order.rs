use vstd::prelude::*;
use core::cmp::Ordering;
use vstd::std_specs::cmp::PartialOrdSpec;
use vstd::seq_lib::{lemma_multiset_commutative, to_multiset_update};

verus! {

/// `a` comes no later than `b` in the order that `partial_cmp` gives.
pub open spec fn le<T: PartialOrd>(a: T, b: T) -> bool {
    a.partial_cmp_spec(&b) matches Some(Ordering::Less | Ordering::Equal)
}

/// `a` comes strictly after `b`: what `a > b` answers.
pub open spec fn gt<T: PartialOrd>(a: T, b: T) -> bool {
    a.partial_cmp_spec(&b) == Some(Ordering::Greater)
}

/// `partial_cmp` on `T` keeps to its specification and orders every two
/// values: `Less` one way is `Greater` the other way, `Equal` goes both ways,
/// and "no later than" is transitive.
pub open spec fn total_order<T: PartialOrd>() -> bool {
    &&& T::obeys_partial_cmp_spec()
    &&& forall|a: T, b: T| #[trigger] a.partial_cmp_spec(&b) is Some
    &&& forall|a: T, b: T|
        #[trigger] a.partial_cmp_spec(&b) == Some(Ordering::Less) <==> b.partial_cmp_spec(&a) == Some(
            Ordering::Greater,
        )
    &&& forall|a: T, b: T|
        #[trigger] a.partial_cmp_spec(&b) == Some(Ordering::Equal) <==> b.partial_cmp_spec(&a)
            == Some(Ordering::Equal)
    &&& forall|a: T, b: T, c: T| #[trigger] le(a, b) && #[trigger] le(b, c) ==> le(a, c)
}

/// The integers are totally ordered.
pub proof fn lemma_i32_total_order()
    ensures
        total_order::<i32>(),
{
}

/// What `>` and its negation say in a total order.
pub proof fn lemma_gt_facts<T: PartialOrd>(a: T, b: T)
    requires
        total_order::<T>(),
    ensures
        gt(a, b) ==> le(b, a) && !le(a, b),
        !gt(a, b) ==> le(a, b),
        !le(a, b) ==> gt(a, b) && le(b, a),
        le(a, a),
{
    assert(a.partial_cmp_spec(&b) is Some);
    assert(b.partial_cmp_spec(&a) is Some);
    assert(a.partial_cmp_spec(&a) is Some);
}

/// The elements of `a` at positions `lo..hi` are in order.
pub open spec fn sorted_range_le<T: PartialOrd>(a: Seq<T>, lo: int, hi: int) -> bool {
    forall|i: int, j: int| lo <= i < j < hi ==> le(a[i], a[j])
}

/// `a` is in order.
pub open spec fn sorted_le<T: PartialOrd>(a: Seq<T>) -> bool {
    sorted_range_le(a, 0, a.len() as int)
}

/// `a` is in non-decreasing order.
pub open spec fn sorted_i32(a: Seq<i32>) -> bool {
    forall|i: int, j: int| 0 <= i < j < a.len() ==> a[i] <= a[j]
}

/// `a` is in non-decreasing order.
pub open spec fn sorted_usize(a: Seq<usize>) -> bool {
    forall|i: int, j: int| 0 <= i < j < a.len() ==> a[i] <= a[j]
}

/// `v` is one of the elements of `s` at positions `l..=r`.
pub open spec fn occurs_in<T>(s: Seq<T>, v: T, l: int, r: int) -> bool {
    exists|j: int| l <= j <= r && s[j] == v
}

/// `b` holds the same elements as `a`, each as often.
pub open spec fn permutes<T>(a: Seq<T>, b: Seq<T>) -> bool {
    a.to_multiset() == b.to_multiset()
}

/// Replacing the positions `lo..hi` of a sequence by a permutation of what
/// they held permutes the whole sequence.
pub proof fn lemma_permutes_range<T>(a: Seq<T>, b: Seq<T>, lo: int, hi: int)
    requires
        a.len() == b.len(),
        0 <= lo <= hi <= a.len(),
        forall|k: int| 0 <= k < a.len() && (k < lo || k >= hi) ==> a[k] == b[k],
        permutes(a.subrange(lo, hi), b.subrange(lo, hi)),
    ensures
        permutes(a, b),
{
    let n = a.len() as int;
    assert(a =~= a.subrange(0, lo) + a.subrange(lo, hi) + a.subrange(hi, n));
    assert(b =~= b.subrange(0, lo) + b.subrange(lo, hi) + b.subrange(hi, n));
    assert(a.subrange(0, lo) =~= b.subrange(0, lo));
    assert(a.subrange(hi, n) =~= b.subrange(hi, n));
    lemma_multiset_commutative(a.subrange(0, lo), a.subrange(lo, hi));
    lemma_multiset_commutative(a.subrange(0, lo) + a.subrange(lo, hi), a.subrange(hi, n));
    lemma_multiset_commutative(b.subrange(0, lo), b.subrange(lo, hi));
    lemma_multiset_commutative(b.subrange(0, lo) + b.subrange(lo, hi), b.subrange(hi, n));
}

/// Exchanges two elements of a slice.
pub fn swap<T: Copy>(arr: &mut [T], i: usize, j: usize)
    requires
        i < old(arr)@.len(),
        j < old(arr)@.len(),
    ensures
        final(arr)@ == old(arr)@.update(i as int, old(arr)@[j as int]).update(
            j as int,
            old(arr)@[i as int],
        ),
        permutes(final(arr)@, old(arr)@),
{
    let a = arr[i];
    let b = arr[j];
    arr[i] = b;
    arr[j] = a;
    proof {
        let s0 = old(arr)@;
        let s1 = s0.update(i as int, b);
        to_multiset_update(s0, i as int, b);
        to_multiset_update(s1, j as int, a);
        broadcast use vstd::multiset::group_multiset_axioms;
        broadcast use vstd::seq_lib::to_multiset_contains;
        assert(s0.to_multiset().contains(a));
        assert(arr@.to_multiset() =~= s0.to_multiset());
    }
}

} // verus!
