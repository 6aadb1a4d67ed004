//! Stable sorting by a rank that the items' type gives.

use vstd::prelude::*;

verus! {

/// A type whose values are ranked by their views.
pub trait Ranked: View + Sized {
    /// Whether a value seen as `a` may stand before one seen as `b`.
    spec fn before(a: Self::V, b: Self::V) -> bool;

    /// Of any two values one may stand before the other.
    proof fn before_is_total(a: Self::V, b: Self::V)
        ensures
            Self::before(a, b) || Self::before(b, a),
    ;

    /// What may stand before a value may stand before all that the value may
    /// stand before.
    proof fn before_is_transitive(a: Self::V, b: Self::V, c: Self::V)
        requires
            Self::before(a, b),
            Self::before(b, c),
        ensures
            Self::before(a, c),
    ;

    /// Whether this value may stand before the other.
    fn stands_before(&self, other: &Self) -> (r: bool)
        ensures
            r == Self::before(self@, other@),
    ;
}

/// The views of a sequence of values.
pub open spec fn views<T: View>(items: Seq<T>) -> Seq<T::V> {
    Seq::new(items.len(), |i: int| items[i]@)
}

/// Whether each item may stand before all that follow it.
pub open spec fn is_sorted<T: Ranked>(items: Seq<T::V>) -> bool {
    forall|i: int, j: int| 0 <= i < j < items.len() ==> T::before(items[i], items[j])
}

/// A sorted sequence with one more item, put behind the last item that may
/// stand before it.
pub open spec fn insert_ranked<T: Ranked>(sorted: Seq<T::V>, item: T::V) -> Seq<T::V>
    decreases sorted.len(),
{
    if sorted.len() == 0 {
        seq![item]
    } else if T::before(sorted.last(), item) {
        sorted.push(item)
    } else {
        insert_ranked::<T>(sorted.drop_last(), item).push(sorted.last())
    }
}

/// The items in sorted order. Items of equal rank keep the order they came
/// in.
pub open spec fn sort<T: Ranked>(items: Seq<T::V>) -> Seq<T::V>
    decreases items.len(),
{
    if items.len() == 0 {
        Seq::empty()
    } else {
        insert_ranked::<T>(sort::<T>(items.drop_last()), items.last())
    }
}

/// The items at the given positions.
pub open spec fn pick<T>(items: Seq<T>, positions: Seq<usize>) -> Seq<T> {
    Seq::new(positions.len(), |k: int| items[positions[k] as int])
}

/// Inserting at the place that a scan from the end finds is inserting behind
/// the last item that may stand before the new one.
proof fn lemma_insert_at<T: Ranked>(sorted: Seq<T::V>, item: T::V, place: int)
    requires
        0 <= place <= sorted.len(),
        place > 0 ==> T::before(sorted[place - 1], item),
        forall|j: int| place <= j < sorted.len() ==> !T::before(sorted[j], item),
    ensures
        insert_ranked::<T>(sorted, item) == sorted.insert(place, item),
    decreases sorted.len(),
{
    if sorted.len() == 0 {
    } else if place == sorted.len() {
    } else {
        lemma_insert_at::<T>(sorted.drop_last(), item, place);
        assert(sorted.drop_last().insert(place, item).push(sorted.last()) == sorted.insert(
            place,
            item,
        ));
    }
}

/// The positions of the items in sorted order.
pub fn sorted_positions<T: Ranked>(items: &Vec<T>) -> (positions: Vec<usize>)
    ensures
        positions@.len() == items@.len(),
        forall|k: int| 0 <= k < positions@.len() ==> positions@[k] < items@.len(),
        pick(views(items@), positions@) == sort::<T>(views(items@)),
{
    let ghost all = views(items@);
    let mut positions: Vec<usize> = Vec::new();
    let mut i: usize = 0;
    assert(pick(all, positions@) == sort::<T>(all.take(0)));
    while i < items.len()
        invariant
            i <= items@.len(),
            all == views(items@),
            positions@.len() == i,
            forall|k: int| 0 <= k < positions@.len() ==> positions@[k] < i,
            pick(all, positions@) == sort::<T>(all.take(i as int)),
        decreases items@.len() - i,
    {
        let ghost sorted = pick(all, positions@);
        let mut place: usize = positions.len();
        while place > 0 && !items[positions[place - 1]].stands_before(&items[i])
            invariant
                place <= positions@.len(),
                i < items@.len(),
                all == views(items@),
                sorted == pick(all, positions@),
                forall|k: int| 0 <= k < positions@.len() ==> positions@[k] < i,
                forall|j: int| place <= j < sorted.len() ==> !T::before(sorted[j], all[i as int]),
            decreases place,
        {
            place -= 1;
        }
        proof {
            lemma_insert_at::<T>(sorted, all[i as int], place as int);
            assert(all.take(i + 1).drop_last() == all.take(i as int));
        }
        positions.insert(place, i);
        assert(pick(all, positions@) == sorted.insert(place as int, all[i as int]));
        i += 1;
    }
    assert(all.take(i as int) == all);
    positions
}

/// Where a new item goes: behind the last item that may stand before it.
spec fn place_of<T: Ranked>(sorted: Seq<T::V>, item: T::V) -> int
    decreases sorted.len(),
{
    if sorted.len() == 0 {
        0
    } else if T::before(sorted.last(), item) {
        sorted.len() as int
    } else {
        place_of::<T>(sorted.drop_last(), item)
    }
}

proof fn lemma_place_of<T: Ranked>(sorted: Seq<T::V>, item: T::V)
    ensures
        0 <= place_of::<T>(sorted, item) <= sorted.len(),
        place_of::<T>(sorted, item) > 0 ==> T::before(
            sorted[place_of::<T>(sorted, item) - 1],
            item,
        ),
        forall|j: int|
            place_of::<T>(sorted, item) <= j < sorted.len() ==> !T::before(sorted[j], item),
    decreases sorted.len(),
{
    if sorted.len() > 0 && !T::before(sorted.last(), item) {
        let front = sorted.drop_last();
        lemma_place_of::<T>(front, item);
        assert forall|j: int| place_of::<T>(sorted, item) <= j < sorted.len() implies !T::before(
            sorted[j],
            item,
        ) by {
            if j < front.len() {
                assert(front[j] == sorted[j]);
            }
        }
    }
}

/// Inserting into a sorted sequence leaves it sorted.
proof fn lemma_insert_sorted<T: Ranked>(sorted: Seq<T::V>, item: T::V)
    requires
        is_sorted::<T>(sorted),
    ensures
        is_sorted::<T>(insert_ranked::<T>(sorted, item)),
        insert_ranked::<T>(sorted, item).len() == sorted.len() + 1,
{
    let place = place_of::<T>(sorted, item);
    lemma_place_of::<T>(sorted, item);
    lemma_insert_at::<T>(sorted, item, place);
    let result = sorted.insert(place, item);
    assert forall|i: int, j: int| 0 <= i < j < result.len() implies T::before(
        result[i],
        result[j],
    ) by {
        if j == place {
            if i < place - 1 {
                T::before_is_transitive(sorted[i], sorted[place - 1], item);
            }
        } else if i == place {
            T::before_is_total(sorted[j - 1], item);
        } else if i < place && j > place {
            assert(result[i] == sorted[i] && result[j] == sorted[j - 1]);
        }
    }
}

/// Sorting sorts: in the result each item may stand before all that follow
/// it, and the result is as long as what was sorted.
pub proof fn lemma_sort_sorts<T: Ranked>(items: Seq<T::V>)
    ensures
        is_sorted::<T>(sort::<T>(items)),
        sort::<T>(items).len() == items.len(),
    decreases items.len(),
{
    if items.len() > 0 {
        lemma_sort_sorts::<T>(items.drop_last());
        lemma_insert_sorted::<T>(sort::<T>(items.drop_last()), items.last());
    }
}

/// Sorting keeps the items: each occurs in the result as often as in what was
/// sorted.
pub proof fn lemma_sort_permutes<T: Ranked>(items: Seq<T::V>)
    ensures
        sort::<T>(items).to_multiset() == items.to_multiset(),
    decreases items.len(),
{
    broadcast use vstd::seq_lib::group_to_multiset_ensures;

    if items.len() == 0 {
    } else {
        lemma_sort_permutes::<T>(items.drop_last());
        lemma_insert_permutes::<T>(sort::<T>(items.drop_last()), items.last());
        assert(items.drop_last().push(items.last()) == items);
    }
}

proof fn lemma_insert_permutes<T: Ranked>(sorted: Seq<T::V>, item: T::V)
    ensures
        insert_ranked::<T>(sorted, item).to_multiset() == sorted.to_multiset().insert(item),
    decreases sorted.len(),
{
    broadcast use vstd::seq_lib::group_to_multiset_ensures;

    if sorted.len() == 0 {
        assert(seq![item] == Seq::<T::V>::empty().push(item));
        assert(sorted == Seq::<T::V>::empty());
    } else if T::before(sorted.last(), item) {
    } else {
        lemma_insert_permutes::<T>(sorted.drop_last(), item);
        assert(sorted.drop_last().push(sorted.last()) == sorted);
        assert(insert_ranked::<T>(sorted, item).to_multiset() =~= sorted.to_multiset().insert(
            item,
        ));
    }
}

/// Sorting what is sorted changes nothing.
pub proof fn lemma_sort_of_sorted<T: Ranked>(items: Seq<T::V>)
    requires
        is_sorted::<T>(items),
    ensures
        sort::<T>(items) == items,
    decreases items.len(),
{
    if items.len() > 0 {
        lemma_sort_of_sorted::<T>(items.drop_last());
        if items.len() > 1 {
            assert(items.drop_last().last() == items[items.len() - 2]);
        }
        assert(items.drop_last().push(items.last()) == items);
    }
}

/// Sorting twice is sorting once.
pub proof fn lemma_sort_idempotent<T: Ranked>(items: Seq<T::V>)
    ensures
        sort::<T>(sort::<T>(items)) == sort::<T>(items),
{
    lemma_sort_sorts::<T>(items);
    lemma_sort_of_sorted::<T>(sort::<T>(items));
}

/// Two sorted sequences of the same items are one sequence, where no two
/// different items are of one rank.
pub proof fn lemma_sorted_is_unique<T: Ranked>(a: Seq<T::V>, b: Seq<T::V>)
    requires
        is_sorted::<T>(a),
        is_sorted::<T>(b),
        a.to_multiset() == b.to_multiset(),
        forall|x: T::V, y: T::V|
            a.contains(x) && a.contains(y) && T::before(x, y) && T::before(y, x) ==> x == y,
    ensures
        a == b,
    decreases a.len(),
{
    broadcast use vstd::seq_lib::group_to_multiset_ensures;

    assert(a.len() == a.to_multiset().len() && b.len() == b.to_multiset().len());
    if a.len() == 0 {
        assert(a == b);
    } else {
        let x = a.last();
        let y = b.last();
        assert(a.contains(x));
        assert(b.contains(y));
        assert(b.to_multiset().count(x) > 0);
        assert(a.to_multiset().count(y) > 0);
        assert(b.contains(x));
        assert(a.contains(y));
        let j = choose|j: int| 0 <= j < b.len() && b[j] == x;
        let i = choose|i: int| 0 <= i < a.len() && a[i] == y;
        if j < b.len() - 1 && i < a.len() - 1 {
            assert(T::before(x, y) && T::before(y, x));
        }
        assert(x == y);
        let front_a = a.drop_last();
        let front_b = b.drop_last();
        assert(front_a.push(x) == a);
        assert(front_b.push(y) == b);
        assert(front_a.to_multiset() =~= a.to_multiset().remove(x));
        assert(front_b.to_multiset() =~= b.to_multiset().remove(x));
        assert forall|u: T::V, v: T::V|
            front_a.contains(u) && front_a.contains(v) && T::before(u, v) && T::before(
                v,
                u,
            ) implies u == v by {
            let m = choose|m: int| 0 <= m < front_a.len() && front_a[m] == u;
            let n = choose|n: int| 0 <= n < front_a.len() && front_a[n] == v;
            assert(a[m] == u && a[n] == v);
        }
        lemma_sorted_is_unique::<T>(front_a, front_b);
    }
}

/// Sorting does not look at the order in which the items come, where no two
/// different items are of one rank.
pub proof fn lemma_sort_ignores_order<T: Ranked>(a: Seq<T::V>, b: Seq<T::V>)
    requires
        a.to_multiset() == b.to_multiset(),
        forall|x: T::V, y: T::V|
            a.contains(x) && a.contains(y) && T::before(x, y) && T::before(y, x) ==> x == y,
    ensures
        sort::<T>(a) == sort::<T>(b),
{
    broadcast use vstd::seq_lib::group_to_multiset_ensures;

    lemma_sort_sorts::<T>(a);
    lemma_sort_sorts::<T>(b);
    lemma_sort_permutes::<T>(a);
    lemma_sort_permutes::<T>(b);
    assert forall|x: T::V, y: T::V|
        sort::<T>(a).contains(x) && sort::<T>(a).contains(y) && T::before(x, y) && T::before(
            y,
            x,
        ) implies x == y by {
        assert(sort::<T>(a).to_multiset().count(x) > 0);
        assert(sort::<T>(a).to_multiset().count(y) > 0);
        assert(a.contains(x) && a.contains(y));
    }
    lemma_sorted_is_unique::<T>(sort::<T>(a), sort::<T>(b));
}

} // verus!
