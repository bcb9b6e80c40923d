//! Stable sorting, specified as insertion sort.
//!
//! `before(a, b)` says that `a` may stay in front of `b`; for a key order it is
//! "key of `a` <= key of `b`". Elements with equal keys keep their input order.
use vstd::prelude::*;

verus! {

/// Inserts `x` into `s` after every trailing element that may precede it.
pub open spec fn insert_stable<T>(s: Seq<T>, x: T, before: spec_fn(T, T) -> bool) -> Seq<T>
    decreases s.len(),
{
    if s.len() == 0 || before(s.last(), x) {
        s.push(x)
    } else {
        insert_stable(s.drop_last(), x, before).push(s.last())
    }
}

/// The stable sort of `s` under the order `before`.
pub open spec fn sort_stable<T>(s: Seq<T>, before: spec_fn(T, T) -> bool) -> Seq<T>
    decreases s.len(),
{
    if s.len() == 0 {
        Seq::empty()
    } else {
        insert_stable(sort_stable(s.drop_last(), before), s.last(), before)
    }
}

/// `s` is sorted under `before`: every element may precede every later one.
pub open spec fn sorted_by<T>(s: Seq<T>, before: spec_fn(T, T) -> bool) -> bool {
    forall|i: int, j: int| 0 <= i < j < s.len() ==> before(#[trigger] s[i], #[trigger] s[j])
}

/// `before` is a total preorder.
pub open spec fn total_preorder<T>(before: spec_fn(T, T) -> bool) -> bool {
    &&& forall|a: T, b: T| #[trigger] before(a, b) || #[trigger] before(b, a)
    &&& forall|a: T, b: T, c: T| #[trigger] before(a, b) && #[trigger] before(b, c) ==> before(a, c)
}

/// Inserting at the position found by scanning back from the end.
pub proof fn lemma_insert_stable_at<T>(s: Seq<T>, x: T, before: spec_fn(T, T) -> bool, p: int)
    requires
        0 <= p <= s.len(),
        forall|k: int| p <= k < s.len() ==> !before(#[trigger] s[k], x),
        p == 0 || before(s[p - 1], x),
    ensures
        insert_stable(s, x, before) == s.take(p).push(x) + s.skip(p),
    decreases s.len(),
{
    if s.len() == 0 {
        assert(s.take(p).push(x) + s.skip(p) =~= seq![x]);
    } else if p == s.len() {
        assert(s.take(p) =~= s);
        assert(s.take(p).push(x) + s.skip(p) =~= s.push(x));
    } else {
        assert(!before(s[s.len() - 1], x));
        let t = s.drop_last();
        assert forall|k: int| p <= k < t.len() implies !before(#[trigger] t[k], x) by {
            assert(t[k] == s[k]);
        }
        lemma_insert_stable_at(t, x, before, p);
        assert(t.take(p) =~= s.take(p));
        assert(t.skip(p).push(s.last()) =~= s.skip(p));
        assert((t.take(p).push(x) + t.skip(p)).push(s.last()) =~= s.take(p).push(x) + s.skip(p));
    }
}

/// Insertion keeps the elements and adds `x`.
pub proof fn lemma_insert_stable_multiset<T>(s: Seq<T>, x: T, before: spec_fn(T, T) -> bool)
    ensures
        insert_stable(s, x, before).to_multiset() == s.to_multiset().insert(x),
    decreases s.len(),
{
    broadcast use vstd::seq_lib::group_to_multiset_ensures;

    if s.len() == 0 || before(s.last(), x) {
    } else {
        lemma_insert_stable_multiset(s.drop_last(), x, before);
        assert(s =~= s.drop_last().push(s.last()));
        assert(s.to_multiset() =~= s.drop_last().to_multiset().insert(s.last()));
    }
}

/// Insertion into a sorted sequence keeps it sorted.
pub proof fn lemma_insert_stable_sorted<T>(s: Seq<T>, x: T, before: spec_fn(T, T) -> bool)
    requires
        total_preorder(before),
        sorted_by(s, before),
    ensures
        sorted_by(insert_stable(s, x, before), before),
        insert_stable(s, x, before).len() == s.len() + 1,
    decreases s.len(),
{
    broadcast use vstd::seq_lib::group_to_multiset_ensures;

    if s.len() == 0 || before(s.last(), x) {
        let r = s.push(x);
        assert forall|i: int, j: int| 0 <= i < j < r.len() implies before(
            #[trigger] r[i],
            #[trigger] r[j],
        ) by {
            if j == s.len() as int && i < s.len() - 1 {
                assert(before(s[i], s.last()));
            }
        }
    } else {
        let t = s.drop_last();
        assert(sorted_by(t, before));
        lemma_insert_stable_sorted(t, x, before);
        lemma_insert_stable_multiset(t, x, before);
        let u = insert_stable(t, x, before);
        let r = u.push(s.last());
        assert(before(x, s.last()));
        assert forall|i: int, j: int| 0 <= i < j < r.len() implies before(
            #[trigger] r[i],
            #[trigger] r[j],
        ) by {
            if j == u.len() as int {
                let e = u[i];
                assert(u.contains(e));
                assert(u.to_multiset().count(e) > 0);
                assert(t.to_multiset().insert(x).count(e) > 0);
                if e != x {
                    assert(t.to_multiset().count(e) > 0);
                    assert(t.contains(e));
                    let k = choose|k: int| 0 <= k < t.len() && t[k] == e;
                    assert(t[k] == s[k]);
                    assert(before(s[k], s[s.len() - 1]));
                }
            }
        }
    }
}

/// The stable sort holds the same elements as its input.
pub proof fn lemma_sort_stable_multiset<T>(s: Seq<T>, before: spec_fn(T, T) -> bool)
    ensures
        sort_stable(s, before).to_multiset() == s.to_multiset(),
    decreases s.len(),
{
    broadcast use vstd::seq_lib::group_to_multiset_ensures;

    if s.len() > 0 {
        lemma_sort_stable_multiset(s.drop_last(), before);
        lemma_insert_stable_multiset(sort_stable(s.drop_last(), before), s.last(), before);
        assert(s =~= s.drop_last().push(s.last()));
    }
}

/// The stable sort under a total preorder is sorted.
pub proof fn lemma_sort_stable_sorted<T>(s: Seq<T>, before: spec_fn(T, T) -> bool)
    requires
        total_preorder(before),
    ensures
        sorted_by(sort_stable(s, before), before),
        sort_stable(s, before).len() == s.len(),
    decreases s.len(),
{
    if s.len() > 0 {
        lemma_sort_stable_sorted(s.drop_last(), before);
        lemma_insert_stable_sorted(sort_stable(s.drop_last(), before), s.last(), before);
    }
}

} // verus!
