//! Stable insertion order: the specification every sorted query follows.

use vstd::prelude::*;

verus! {

/// `before(a, b)`: `a` must be listed ahead of `b`.
pub open spec fn is_strict_weak_order<A>(before: spec_fn(A, A) -> bool) -> bool {
    &&& forall|a: A| !#[trigger] before(a, a)
    &&& forall|a: A, b: A, c: A|
        #[trigger] before(a, b) && #[trigger] before(b, c) ==> before(a, c)
    &&& forall|a: A, b: A, c: A|
        #[trigger] before(a, b) ==> before(a, c) || #[trigger] before(c, b)
}

/// No element is listed behind one that must come after it.
pub open spec fn is_sorted_by<A>(s: Seq<A>, before: spec_fn(A, A) -> bool) -> bool {
    forall|i: int, j: int| 0 <= i < j < s.len() ==> !before(#[trigger] s[j], #[trigger] s[i])
}

/// `x` placed into `s` ahead of the first element that it must precede.
pub open spec fn insert_sorted<A>(s: Seq<A>, x: A, before: spec_fn(A, A) -> bool) -> Seq<A>
    decreases s.len(),
{
    if s.len() == 0 {
        seq![x]
    } else if before(x, s[0]) {
        seq![x] + s
    } else {
        seq![s[0]] + insert_sorted(s.drop_first(), x, before)
    }
}

/// Stable sort: the elements of `s`, taken in order, each inserted into the
/// result so far. Elements that neither must precede the other keep their
/// relative order.
pub open spec fn sort_by<A>(s: Seq<A>, before: spec_fn(A, A) -> bool) -> Seq<A>
    decreases s.len(),
{
    if s.len() == 0 {
        Seq::empty()
    } else {
        insert_sorted(sort_by(s.drop_last(), before), s.last(), before)
    }
}

/// `p` is the first position of `s` whose element `x` must precede (or the end).
pub open spec fn is_insert_position<A>(
    s: Seq<A>,
    x: A,
    before: spec_fn(A, A) -> bool,
    p: int,
) -> bool {
    &&& 0 <= p <= s.len()
    &&& forall|k: int| 0 <= k < p ==> !before(x, #[trigger] s[k])
    &&& p < s.len() ==> before(x, s[p])
}

/// Inserting at the first position that `x` must precede gives `insert_sorted`.
pub proof fn lemma_insert_sorted_at<A>(s: Seq<A>, x: A, before: spec_fn(A, A) -> bool, p: int)
    requires
        is_insert_position(s, x, before, p),
    ensures
        insert_sorted(s, x, before) == s.take(p) + seq![x] + s.skip(p),
    decreases s.len(),
{
    if s.len() == 0 {
        assert(s.take(p) + seq![x] + s.skip(p) =~= seq![x]);
    } else if p == 0 {
        assert(s.take(p) + seq![x] + s.skip(p) =~= seq![x] + s);
    } else {
        let t = s.drop_first();
        assert forall|k: int| 0 <= k < p - 1 implies !before(x, #[trigger] t[k]) by {
            assert(t[k] == s[k + 1]);
        }
        if p < s.len() {
            assert(t[p - 1] == s[p]);
        }
        lemma_insert_sorted_at(t, x, before, p - 1);
        assert(s.take(p) + seq![x] + s.skip(p) =~= seq![s[0]] + (t.take(p - 1) + seq![x] + t.skip(
            p - 1,
        )));
    }
}

/// Inserting adds exactly one occurrence of `x`.
pub proof fn lemma_insert_sorted_multiset<A>(s: Seq<A>, x: A, before: spec_fn(A, A) -> bool)
    ensures
        insert_sorted(s, x, before).to_multiset() == s.to_multiset().insert(x),
        insert_sorted(s, x, before).len() == s.len() + 1,
    decreases s.len(),
{
    broadcast use vstd::seq_lib::group_to_multiset_ensures;
    broadcast use vstd::multiset::group_multiset_axioms;

    if s.len() == 0 {
        assert(seq![x] =~= Seq::<A>::empty().push(x));
    } else if before(x, s[0]) {
        assert(seq![x] + s =~= s.insert(0, x));
    } else {
        let t = s.drop_first();
        lemma_insert_sorted_multiset(t, x, before);
        vstd::seq_lib::lemma_multiset_commutative(seq![s[0]], insert_sorted(t, x, before));
        vstd::seq_lib::lemma_multiset_commutative(seq![s[0]], t);
        assert(s =~= seq![s[0]] + t);
    }
}

/// Inserting into a sorted sequence keeps it sorted.
pub proof fn lemma_insert_sorted_sorted<A>(s: Seq<A>, x: A, before: spec_fn(A, A) -> bool)
    requires
        is_strict_weak_order(before),
        is_sorted_by(s, before),
    ensures
        is_sorted_by(insert_sorted(s, x, before), before),
    decreases s.len(),
{
    broadcast use vstd::seq_lib::group_to_multiset_ensures;
    broadcast use vstd::multiset::group_multiset_axioms;

    if s.len() > 0 && !before(x, s[0]) {
        let t = s.drop_first();
        assert(is_sorted_by(t, before)) by {
            assert forall|i: int, j: int| 0 <= i < j < t.len() implies !before(
                #[trigger] t[j],
                #[trigger] t[i],
            ) by {
                assert(t[i] == s[i + 1] && t[j] == s[j + 1]);
            }
        }
        lemma_insert_sorted_sorted(t, x, before);
        lemma_insert_sorted_multiset(t, x, before);
        let r = insert_sorted(t, x, before);
        let whole = seq![s[0]] + r;
        assert forall|i: int, j: int| 0 <= i < j < whole.len() implies !before(
            #[trigger] whole[j],
            #[trigger] whole[i],
        ) by {
            if i == 0 {
                let y = r[j - 1];
                assert(r.contains(y));
                assert(r.to_multiset().count(y) > 0);
                assert(t.to_multiset().insert(x).count(y) > 0);
                if y != x {
                    assert(t.to_multiset().count(y) > 0);
                    assert(t.contains(y));
                    let k = choose|k: int| 0 <= k < t.len() && t[k] == y;
                    assert(s[k + 1] == y);
                    assert(!before(s[k + 1], s[0]));
                }
            } else {
                assert(whole[j] == r[j - 1] && whole[i] == r[i - 1]);
            }
        }
    } else if s.len() > 0 {
        let whole = seq![x] + s;
        assert forall|i: int, j: int| 0 <= i < j < whole.len() implies !before(
            #[trigger] whole[j],
            #[trigger] whole[i],
        ) by {
            if i == 0 {
                // x must precede s[0], and s[0] does not need to follow s[j - 1]
                if j - 1 > 0 {
                    assert(!before(s[j - 1], s[0]));
                    assert(before(x, s[0]));
                    assert(before(x, s[j - 1]) || before(s[j - 1], s[0]));
                }
                assert(before(x, s[j - 1]));
                assert(!before(s[j - 1], x));
            } else {
                assert(whole[j] == s[j - 1] && whole[i] == s[i - 1]);
            }
        }
    }
}

/// `sort_by` orders its input and keeps exactly its elements.
pub proof fn lemma_sort_by<A>(s: Seq<A>, before: spec_fn(A, A) -> bool)
    requires
        is_strict_weak_order(before),
    ensures
        is_sorted_by(sort_by(s, before), before),
        sort_by(s, before).to_multiset() == s.to_multiset(),
        sort_by(s, before).len() == s.len(),
    decreases s.len(),
{
    broadcast use vstd::seq_lib::group_to_multiset_ensures;

    if s.len() > 0 {
        lemma_sort_by(s.drop_last(), before);
        lemma_insert_sorted_sorted(sort_by(s.drop_last(), before), s.last(), before);
        lemma_insert_sorted_multiset(sort_by(s.drop_last(), before), s.last(), before);
        assert(s =~= s.drop_last().push(s.last()));
    } else {
        assert(s =~= Seq::<A>::empty());
    }
}

/// An element of the sorted sequence is an element of the input, and back.
pub proof fn lemma_sort_by_contains<A>(s: Seq<A>, before: spec_fn(A, A) -> bool, x: A)
    requires
        is_strict_weak_order(before),
    ensures
        sort_by(s, before).contains(x) <==> s.contains(x),
{
    broadcast use vstd::seq_lib::group_to_multiset_ensures;

    lemma_sort_by(s, before);
    assert(sort_by(s, before).contains(x) <==> sort_by(s, before).to_multiset().count(x) > 0);
    assert(s.contains(x) <==> s.to_multiset().count(x) > 0);
}

} // verus!
