//! Stable sorting by insertion, over any strict weak order.
//!
//! `lt(a, b)` says that `a` must come in front of `b`. Elements of which
//! neither must come in front of the other keep the order they had.
use vstd::prelude::*;

verus! {

/// The models of a list.
pub open spec fn modeled<T: View>(list: Seq<T>) -> Seq<T::V> {
    list.map_values(|x: T| x@)
}

/// Whether `lt` is a strict weak order: nothing comes in front of what comes
/// in front of it, and where `a` need not precede `b` nor `b` precede `c`, `a`
/// need not precede `c`.
pub open spec fn strict_weak<V>(lt: spec_fn(V, V) -> bool) -> bool {
    &&& forall|a: V, b: V| #[trigger] lt(a, b) ==> !lt(b, a)
    &&& forall|a: V, b: V, c: V| !#[trigger] lt(a, b) && !#[trigger] lt(b, c) ==> !lt(a, c)
}

/// Whether neither of `a` and `b` must come in front of the other.
pub open spec fn same_rank<V>(lt: spec_fn(V, V) -> bool, a: V, b: V) -> bool {
    !lt(a, b) && !lt(b, a)
}

/// Whether no element of `s` stands behind one that it must precede.
pub open spec fn ordered<V>(s: Seq<V>, lt: spec_fn(V, V) -> bool) -> bool {
    forall|i: int, j: int| 0 <= i < j < s.len() ==> !lt(#[trigger] s[j], #[trigger] s[i])
}

/// Where `x` is put into the sorted `t`: behind the last element that it need
/// not precede.
pub open spec fn slot<V>(t: Seq<V>, x: V, lt: spec_fn(V, V) -> bool) -> int
    decreases t.len(),
{
    if t.len() > 0 && lt(x, t.last()) {
        slot(t.drop_last(), x, lt)
    } else {
        t.len() as int
    }
}

/// `s` sorted by `lt`, elements of the same rank in the order they had.
pub open spec fn sorted<V>(s: Seq<V>, lt: spec_fn(V, V) -> bool) -> Seq<V>
    decreases s.len(),
{
    if s.len() == 0 {
        s
    } else {
        let t = sorted(s.drop_last(), lt);
        t.insert(slot(t, s.last(), lt), s.last())
    }
}

/// The slot lies within the list, all elements from it on must follow `x`, and
/// the element in front of it need not.
pub proof fn lemma_slot<V>(t: Seq<V>, x: V, lt: spec_fn(V, V) -> bool)
    ensures
        0 <= slot(t, x, lt) <= t.len(),
        forall|k: int| slot(t, x, lt) <= k < t.len() ==> lt(x, #[trigger] t[k]),
        slot(t, x, lt) > 0 ==> !lt(x, t[slot(t, x, lt) - 1]),
    decreases t.len(),
{
    if t.len() > 0 && lt(x, t.last()) {
        let front = t.drop_last();
        lemma_slot(front, x, lt);
        assert forall|k: int| slot(t, x, lt) <= k < t.len() implies lt(x, #[trigger] t[k]) by {
            if k < front.len() {
                assert(t[k] == front[k]);
            }
        }
        if slot(t, x, lt) > 0 {
            assert(t[slot(t, x, lt) - 1] == front[slot(front, x, lt) - 1]);
        }
    }
}

/// Sorting keeps the number of elements.
pub proof fn lemma_sorted_len<V>(s: Seq<V>, lt: spec_fn(V, V) -> bool)
    ensures
        sorted(s, lt).len() == s.len(),
    decreases s.len(),
{
    if s.len() > 0 {
        lemma_sorted_len(s.drop_last(), lt);
        lemma_slot(sorted(s.drop_last(), lt), s.last(), lt);
    }
}

/// Putting `x` into its slot of an ordered list leaves the list ordered.
proof fn lemma_insert_ordered<V>(t: Seq<V>, x: V, lt: spec_fn(V, V) -> bool)
    requires
        strict_weak(lt),
        ordered(t, lt),
    ensures
        ordered(t.insert(slot(t, x, lt), x), lt),
{
    let p = slot(t, x, lt);
    let r = t.insert(p, x);
    lemma_slot(t, x, lt);
    assert forall|i: int, j: int| 0 <= i < j < r.len() implies !lt(
        #[trigger] r[j],
        #[trigger] r[i],
    ) by {
        if j < p {
            assert(r[i] == t[i] && r[j] == t[j]);
        } else if j == p {
            assert(r[i] == t[i] && r[j] == x);
            if i < p - 1 {
                assert(!lt(t[p - 1], t[i]));
                assert(!lt(x, t[p - 1]));
            }
        } else if i < p {
            assert(r[i] == t[i] && r[j] == t[j - 1]);
        } else if i == p {
            assert(r[i] == x && r[j] == t[j - 1]);
            assert(lt(x, t[j - 1]));
        } else {
            assert(r[i] == t[i - 1] && r[j] == t[j - 1]);
        }
    }
}

/// The result of a sort is ordered.
pub proof fn lemma_sorted_is_ordered<V>(s: Seq<V>, lt: spec_fn(V, V) -> bool)
    requires
        strict_weak(lt),
    ensures
        ordered(sorted(s, lt), lt),
    decreases s.len(),
{
    if s.len() > 0 {
        lemma_sorted_is_ordered(s.drop_last(), lt);
        lemma_insert_ordered(sorted(s.drop_last(), lt), s.last(), lt);
    }
}

/// Sorting leaves an ordered list as it is.
pub proof fn lemma_ordered_is_fixed<V>(s: Seq<V>, lt: spec_fn(V, V) -> bool)
    requires
        ordered(s, lt),
    ensures
        sorted(s, lt) == s,
    decreases s.len(),
{
    if s.len() > 0 {
        let front = s.drop_last();
        assert forall|i: int, j: int| 0 <= i < j < front.len() implies !lt(
            #[trigger] front[j],
            #[trigger] front[i],
        ) by {
            assert(front[i] == s[i] && front[j] == s[j]);
        }
        lemma_ordered_is_fixed(front, lt);
        if front.len() > 0 {
            assert(front.last() == s[s.len() - 2]);
            assert(!lt(s[s.len() - 1], s[s.len() - 2]));
        }
        assert(front.insert(front.len() as int, s.last()) =~= s);
    }
}

/// Sorting twice gives what sorting once gives.
pub proof fn lemma_sort_idempotent<V>(s: Seq<V>, lt: spec_fn(V, V) -> bool)
    requires
        strict_weak(lt),
    ensures
        sorted(sorted(s, lt), lt) == sorted(s, lt),
{
    lemma_sorted_is_ordered(s, lt);
    lemma_ordered_is_fixed(sorted(s, lt), lt);
}

/// Sorting rearranges: the result holds the same elements, each as often.
pub proof fn lemma_sort_permutes<V>(s: Seq<V>, lt: spec_fn(V, V) -> bool)
    ensures
        sorted(s, lt).to_multiset() == s.to_multiset(),
    decreases s.len(),
{
    broadcast use vstd::seq_lib::to_multiset_insert, vstd::seq_lib::to_multiset_build;

    if s.len() > 0 {
        let t = sorted(s.drop_last(), lt);
        lemma_sort_permutes(s.drop_last(), lt);
        lemma_slot(t, s.last(), lt);
        assert(s =~= s.drop_last().push(s.last()));
        assert(s.to_multiset() == s.drop_last().to_multiset().insert(s.last()));
    } else {
        assert(sorted(s, lt) =~= s);
    }
}

/// A filter that no element passes yields nothing.
proof fn lemma_none_selected<V>(s: Seq<V>, pred: spec_fn(V) -> bool)
    requires
        forall|k: int| 0 <= k < s.len() ==> !pred(#[trigger] s[k]),
    ensures
        s.filter(pred) == Seq::<V>::empty(),
    decreases s.len(),
{
    reveal(Seq::filter);
    if s.len() > 0 {
        let front = s.drop_last();
        assert forall|k: int| 0 <= k < front.len() implies !pred(#[trigger] front[k]) by {
            assert(front[k] == s[k]);
        }
        lemma_none_selected(front, pred);
    } else {
        assert(s.filter(pred) =~= Seq::<V>::empty());
    }
}

/// Sorting is stable: the elements of the rank of `x` stand in the result in
/// the order in which they stood before.
pub proof fn lemma_sort_stable<V>(s: Seq<V>, lt: spec_fn(V, V) -> bool, x: V)
    requires
        strict_weak(lt),
    ensures
        sorted(s, lt).filter(|y: V| same_rank(lt, x, y)) == s.filter(|y: V| same_rank(lt, x, y)),
    decreases s.len(),
{
    let pred = |y: V| same_rank(lt, x, y);
    reveal(Seq::filter);
    if s.len() > 0 {
        let front = s.drop_last();
        let last = s.last();
        let t = sorted(front, lt);
        let p = slot(t, last, lt);
        lemma_sort_stable(front, lt, x);
        lemma_slot(t, last, lt);
        let head = t.take(p);
        let tail = t.skip(p);
        assert(t =~= head + tail);
        assert(t.insert(p, last) =~= head.push(last) + tail);
        Seq::filter_distributes_over_add(head, tail, pred);
        Seq::filter_distributes_over_add(head.push(last), tail, pred);
        assert(head.push(last).drop_last() =~= head);
        if pred(last) {
            assert forall|k: int| 0 <= k < tail.len() implies !pred(#[trigger] tail[k]) by {
                assert(tail[k] == t[p + k]);
                assert(lt(last, t[p + k]));
                if pred(tail[k]) {
                    assert(!lt(last, x));
                    assert(!lt(x, tail[k]));
                }
            }
            lemma_none_selected(tail, pred);
            assert(head.filter(pred) + tail.filter(pred) =~= head.filter(pred));
            assert(head.filter(pred).push(last) + tail.filter(pred) =~= head.filter(pred).push(
                last,
            ));
        }
    }
}

/// An element is in the result of a sort exactly if it was in the list.
pub proof fn lemma_sort_keeps_elements<V>(s: Seq<V>, lt: spec_fn(V, V) -> bool, x: V)
    ensures
        sorted(s, lt).contains(x) == s.contains(x),
{
    lemma_sort_permutes(s, lt);
    vstd::seq_lib::to_multiset_contains(s, x);
    vstd::seq_lib::to_multiset_contains(sorted(s, lt), x);
}

/// Sorting a list in which nothing occurs twice gives such a list.
pub proof fn lemma_sort_keeps_no_duplicates<V>(s: Seq<V>, lt: spec_fn(V, V) -> bool)
    requires
        s.no_duplicates(),
    ensures
        sorted(s, lt).no_duplicates(),
{
    lemma_sort_permutes(s, lt);
    s.lemma_multiset_has_no_duplicates();
    sorted(s, lt).lemma_multiset_has_no_duplicates_conv();
}

/// Sorts `items` stably by `less`, which decides `lt` on the models.
pub fn stable_sort<T: View, F: Fn(&T, &T) -> bool>(
    items: &mut Vec<T>,
    less: F,
    Ghost(lt): Ghost<spec_fn(T::V, T::V) -> bool>,
)
    requires
        forall|a: &T, b: &T| call_requires(less, (a, b)),
        forall|a: &T, b: &T, r: bool| call_ensures(less, (a, b), r) ==> r == lt(a@, b@),
    ensures
        modeled(final(items)@) == sorted(modeled(old(items)@), lt),
{
    let n = items.len();
    let ghost input = modeled(items@);
    let mut i: usize = 0;
    assert(input.take(0) =~= Seq::<T::V>::empty());
    assert(modeled(items@) =~= sorted(input.take(0), lt) + input.skip(0));
    while i < n
        invariant
            i <= n,
            n == items.len(),
            n == input.len(),
            forall|a: &T, b: &T| call_requires(less, (a, b)),
            forall|a: &T, b: &T, r: bool| call_ensures(less, (a, b), r) ==> r == lt(a@, b@),
            modeled(items@) == sorted(input.take(i as int), lt) + input.skip(i as int),
        decreases n - i,
    {
        let ghost t = sorted(input.take(i as int), lt);
        let ghost before_remove = modeled(items@);
        proof {
            lemma_sorted_len(input.take(i as int), lt);
        }
        let x = items.remove(i);
        assert(x@ == input[i as int]) by {
            assert(before_remove[i as int] == x@);
            assert((t + input.skip(i as int))[i as int] == input[i as int]);
        }
        assert(modeled(items@) =~= t + input.skip(i + 1)) by {
            assert forall|k: int| 0 <= k < n - 1 implies modeled(items@)[k] == (t + input.skip(
                i + 1,
            ))[k] by {
                if k < i {
                    assert(before_remove[k] == t[k]);
                } else {
                    assert(before_remove[k + 1] == input[k + 1]);
                }
            }
        }
        let mut p: usize = i;
        assert(t.take(p as int) =~= t);
        loop
            invariant
                p <= i,
                i < n,
                items.len() == n - 1,
                t.len() == i,
                forall|a: &T, b: &T| call_requires(less, (a, b)),
                forall|a: &T, b: &T, r: bool| call_ensures(less, (a, b), r) ==> r == lt(a@, b@),
                modeled(items@) == t + input.skip(i + 1),
                slot(t, x@, lt) == slot(t.take(p as int), x@, lt),
            ensures
                p <= i,
                slot(t, x@, lt) == p,
            decreases p,
        {
            if p == 0 {
                break ;
            }
            assert(modeled(items@)[p - 1] == t[p - 1]);
            assert(t.take(p as int).last() == t[p - 1]);
            if !less(&x, &items[p - 1]) {
                break ;
            }
            assert(t.take(p as int).drop_last() =~= t.take(p - 1));
            p -= 1;
        }
        let ghost before_insert = modeled(items@);
        items.insert(p, x);
        proof {
            assert(modeled(items@) =~= before_insert.insert(p as int, x@));
            assert(input.take(i + 1).drop_last() =~= input.take(i as int));
            assert(input.take(i + 1).last() == input[i as int]);
            assert(before_insert.insert(p as int, x@) =~= t.insert(p as int, x@) + input.skip(
                i + 1,
            ));
        }
        i += 1;
    }
    assert(input.take(n as int) =~= input);
    assert(sorted(input, lt) + input.skip(n as int) =~= sorted(input, lt));
}

} // verus!
