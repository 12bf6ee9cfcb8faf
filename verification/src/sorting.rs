//! Stable insertion order by a "comes before" relation, and what it keeps:
//! the result is ordered, and it holds exactly what it was given.

use vstd::prelude::*;

verus! {

broadcast use vstd::seq_lib::group_to_multiset_ensures;

/// `x` placed into `sorted` after everything it does not come before.
pub open spec fn insert_by<T>(sorted: Seq<T>, x: T, before: spec_fn(T, T) -> bool) -> Seq<T>
    decreases sorted.len(),
{
    if sorted.len() == 0 {
        seq![x]
    } else if before(x, sorted.last()) {
        insert_by(sorted.drop_last(), x, before).push(sorted.last())
    } else {
        sorted.push(x)
    }
}

/// Each element taken in turn and placed after everything it does not come
/// before: the stable sort by `before`.
pub open spec fn sort_by<T>(s: Seq<T>, before: spec_fn(T, T) -> bool) -> Seq<T>
    decreases s.len(),
{
    if s.len() == 0 {
        Seq::empty()
    } else {
        insert_by(sort_by(s.drop_last(), before), s.last(), before)
    }
}

/// No element stands after one it comes before.
pub open spec fn is_sorted_by<T>(s: Seq<T>, before: spec_fn(T, T) -> bool) -> bool {
    forall|i: int, j: int| 0 <= i < j < s.len() ==> !before(#[trigger] s[j], #[trigger] s[i])
}

/// `before` never holds both ways, and if `a` comes before `c` then `a` comes
/// before `b` or `b` before `c`: a strict weak order.
pub open spec fn is_strict_weak<T>(before: spec_fn(T, T) -> bool) -> bool {
    &&& forall|a: T, b: T| !(#[trigger] before(a, b) && #[trigger] before(b, a))
    &&& forall|a: T, b: T, c: T|
        #[trigger] before(a, c) ==> #[trigger] before(a, b) || #[trigger] before(b, c)
}

/// Where `insert_by` places `x`.
pub open spec fn insert_position<T>(sorted: Seq<T>, x: T, before: spec_fn(T, T) -> bool) -> int
    decreases sorted.len(),
{
    if sorted.len() == 0 {
        0
    } else if before(x, sorted.last()) {
        insert_position(sorted.drop_last(), x, before)
    } else {
        sorted.len() as int
    }
}

/// `insert_by` is an insertion at `insert_position`, which lies after
/// everything `x` does not come before and before everything it does.
pub proof fn lemma_insert_at_position<T>(sorted: Seq<T>, x: T, before: spec_fn(T, T) -> bool)
    ensures
        0 <= insert_position(sorted, x, before) <= sorted.len(),
        insert_by(sorted, x, before) == sorted.insert(insert_position(sorted, x, before), x),
        forall|k: int|
            insert_position(sorted, x, before) <= k < sorted.len() ==> before(x, #[trigger] sorted[k]),
        insert_position(sorted, x, before) > 0 ==> !before(
            x,
            sorted[insert_position(sorted, x, before) - 1],
        ),
    decreases sorted.len(),
{
    if sorted.len() == 0 {
        assert(sorted.insert(0, x) =~= seq![x]);
    } else if before(x, sorted.last()) {
        let t = sorted.drop_last();
        lemma_insert_at_position(t, x, before);
        let p = insert_position(t, x, before);
        assert(t.insert(p, x).push(sorted.last()) =~= sorted.insert(p, x));
        assert forall|k: int| p <= k < sorted.len() implies before(x, #[trigger] sorted[k]) by {
            if k < sorted.len() - 1 {
                assert(sorted[k] == t[k]);
            }
        }
        if p > 0 {
            assert(sorted[p - 1] == t[p - 1]);
        }
    } else {
        assert(sorted.push(x) =~= sorted.insert(sorted.len() as int, x));
    }
}

/// The place found by walking back from the end over everything `x` comes
/// before is the place `insert_by` puts it.
pub proof fn lemma_insert_found<T>(sorted: Seq<T>, x: T, before: spec_fn(T, T) -> bool, j: int)
    requires
        0 <= j <= sorted.len(),
        forall|k: int| j <= k < sorted.len() ==> before(x, #[trigger] sorted[k]),
        j == 0 || !before(x, sorted[j - 1]),
    ensures
        insert_by(sorted, x, before) == sorted.insert(j, x),
    decreases sorted.len(),
{
    if sorted.len() == 0 {
        assert(sorted.insert(0, x) =~= seq![x]);
    } else if j == sorted.len() {
        assert(sorted.push(x) =~= sorted.insert(j, x));
    } else {
        let t = sorted.drop_last();
        assert(before(x, sorted[sorted.len() - 1]));
        lemma_insert_found(t, x, before, j);
        assert(t.insert(j, x).push(sorted.last()) =~= sorted.insert(j, x));
    }
}

/// Placing `x` into a sorted run keeps it sorted.
pub proof fn lemma_insert_keeps_sorted<T>(sorted: Seq<T>, x: T, before: spec_fn(T, T) -> bool)
    requires
        is_strict_weak(before),
        is_sorted_by(sorted, before),
    ensures
        is_sorted_by(insert_by(sorted, x, before), before),
{
    lemma_insert_at_position(sorted, x, before);
    let p = insert_position(sorted, x, before);
    let r = sorted.insert(p, x);
    sorted.insert_ensures(p, x);
    assert forall|i: int, j: int| 0 <= i < j < r.len() implies !before(
        #[trigger] r[j],
        #[trigger] r[i],
    ) by {
        if i < p && j < p {
            assert(r[i] == sorted[i] && r[j] == sorted[j]);
        } else if i > p && j > p {
            assert(r[i] == sorted[i - 1] && r[j] == sorted[j - 1]);
        } else if i == p {
            assert(r[j] == sorted[j - 1]);
            assert(before(x, sorted[j - 1]));
        } else if j == p {
            assert(r[i] == sorted[i]);
            if before(x, sorted[i]) {
                assert(before(x, sorted[p - 1]) || before(sorted[p - 1], sorted[i]));
            }
        } else {
            assert(r[i] == sorted[i] && r[j] == sorted[j - 1]);
            assert(before(x, sorted[j - 1]));
            if before(sorted[j - 1], sorted[i]) {
                assert(before(sorted[j - 1], x) || before(x, sorted[i]));
                if before(x, sorted[i]) {
                    assert(before(x, sorted[p - 1]) || before(sorted[p - 1], sorted[i]));
                }
            }
        }
    }
}

/// Sorting by a strict weak order gives a sorted run.
pub proof fn lemma_sort_by_sorted<T>(s: Seq<T>, before: spec_fn(T, T) -> bool)
    requires
        is_strict_weak(before),
    ensures
        is_sorted_by(sort_by(s, before), before),
    decreases s.len(),
{
    if s.len() > 0 {
        lemma_sort_by_sorted(s.drop_last(), before);
        lemma_insert_keeps_sorted(sort_by(s.drop_last(), before), s.last(), before);
    }
}

/// Sorting loses nothing and adds nothing.
pub proof fn lemma_sort_by_permutes<T>(s: Seq<T>, before: spec_fn(T, T) -> bool)
    ensures
        sort_by(s, before).to_multiset() == s.to_multiset(),
    decreases s.len(),
{
    if s.len() > 0 {
        lemma_sort_by_permutes(s.drop_last(), before);
        lemma_insert_at_position(sort_by(s.drop_last(), before), s.last(), before);
        assert(s.drop_last().push(s.last()) =~= s);
    }
}

/// Neither comes before the other: the two sort as equals.
pub open spec fn sorts_equal<T>(a: T, b: T, before: spec_fn(T, T) -> bool) -> bool {
    !before(a, b) && !before(b, a)
}

/// The elements of `s` that sort as equals of `x`, in the order of `s`.
pub open spec fn equals_of<T>(s: Seq<T>, x: T, before: spec_fn(T, T) -> bool) -> Seq<T>
    decreases s.len(),
{
    if s.len() == 0 {
        Seq::empty()
    } else if sorts_equal(s.last(), x, before) {
        equals_of(s.drop_last(), x, before).push(s.last())
    } else {
        equals_of(s.drop_last(), x, before)
    }
}

proof fn lemma_equals_of_concat<T>(a: Seq<T>, b: Seq<T>, x: T, before: spec_fn(T, T) -> bool)
    ensures
        equals_of(a + b, x, before) == equals_of(a, x, before) + equals_of(b, x, before),
    decreases b.len(),
{
    if b.len() == 0 {
        assert(a + b =~= a);
        assert(equals_of(a, x, before) + Seq::<T>::empty() =~= equals_of(a, x, before));
    } else {
        lemma_equals_of_concat(a, b.drop_last(), x, before);
        assert((a + b).drop_last() =~= a + b.drop_last());
        assert((a + b).last() == b.last());
        if sorts_equal(b.last(), x, before) {
            assert(equals_of(a, x, before) + equals_of(b.drop_last(), x, before).push(b.last())
                =~= (equals_of(a, x, before) + equals_of(b.drop_last(), x, before)).push(b.last()));
        }
    }
}

proof fn lemma_equals_of_none<T>(s: Seq<T>, x: T, before: spec_fn(T, T) -> bool)
    requires
        forall|k: int| 0 <= k < s.len() ==> !sorts_equal(#[trigger] s[k], x, before),
    ensures
        equals_of(s, x, before) == Seq::<T>::empty(),
    decreases s.len(),
{
    if s.len() > 0 {
        assert(!sorts_equal(s[s.len() - 1], x, before));
        lemma_equals_of_none(s.drop_last(), x, before);
    }
}

/// Sorting keeps the order of elements that sort as equals: for every `x`,
/// the elements equal to it come out in the order they went in. This is what
/// makes the sort stable.
pub proof fn lemma_sort_by_stable<T>(s: Seq<T>, x: T, before: spec_fn(T, T) -> bool)
    requires
        is_strict_weak(before),
    ensures
        equals_of(sort_by(s, before), x, before) == equals_of(s, x, before),
    decreases s.len(),
{
    if s.len() > 0 {
        let t = s.drop_last();
        let y = s.last();
        let u = sort_by(t, before);
        lemma_sort_by_stable(t, x, before);
        lemma_insert_at_position(u, y, before);
        let p = insert_position(u, y, before);
        assert(u.insert(p, y) =~= u.take(p) + seq![y] + u.skip(p));
        assert(u =~= u.take(p) + u.skip(p));
        lemma_equals_of_concat(u.take(p) + seq![y], u.skip(p), x, before);
        lemma_equals_of_concat(u.take(p), seq![y], x, before);
        lemma_equals_of_concat(u.take(p), u.skip(p), x, before);
        assert(seq![y].drop_last() =~= Seq::<T>::empty());
        assert(seq![y].last() == y);
        assert(equals_of(Seq::<T>::empty(), x, before) == Seq::<T>::empty());
        assert(Seq::<T>::empty().push(y) =~= seq![y]);
        if sorts_equal(y, x, before) {
            assert forall|k: int| 0 <= k < u.skip(p).len() implies !sorts_equal(
                #[trigger] u.skip(p)[k],
                x,
                before,
            ) by {
                let e = u.skip(p)[k];
                assert(e == u[p + k]);
                assert(before(y, e));
                if sorts_equal(e, x, before) {
                    assert(before(y, x) || before(x, e));
                }
            }
            lemma_equals_of_none(u.skip(p), x, before);
            assert(equals_of(seq![y], x, before) =~= seq![y]);
            assert(equals_of(u.take(p), x, before) + seq![y] + Seq::<T>::empty() =~= equals_of(
                u.take(p),
                x,
                before,
            ).push(y));
            assert(equals_of(u.take(p), x, before) + Seq::<T>::empty() =~= equals_of(u.take(p), x, before));
        } else {
            assert(equals_of(seq![y], x, before) =~= Seq::<T>::empty());
            assert(equals_of(u.take(p), x, before) + Seq::<T>::empty() =~= equals_of(u.take(p), x, before));
        }
    }
}

} // verus!
