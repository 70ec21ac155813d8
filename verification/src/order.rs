//! Stable sorting by a strict ordering, stated as insertion: each element is
//! placed after every earlier element that it does not come before.

use vstd::prelude::*;
use vstd::multiset::Multiset;
use vstd::seq_lib::*;

verus! {

/// `item` placed into `sorted` after the last element that it does not come
/// before.
pub open spec fn insert_ordered<T>(sorted: Seq<T>, item: T, before: spec_fn(T, T) -> bool) -> Seq<
    T,
>
    decreases sorted.len(),
{
    if sorted.len() == 0 {
        seq![item]
    } else if before(item, sorted.last()) {
        insert_ordered(sorted.drop_last(), item, before).push(sorted.last())
    } else {
        sorted.push(item)
    }
}

/// The stable sort of `items` by `before`: elements that are not ordered
/// either way keep their relative order.
pub open spec fn sort_ordered<T>(items: Seq<T>, before: spec_fn(T, T) -> bool) -> Seq<T>
    decreases items.len(),
{
    if items.len() == 0 {
        seq![]
    } else {
        insert_ordered(sort_ordered(items.drop_last(), before), items.last(), before)
    }
}

/// No element comes before an earlier one.
pub open spec fn is_ordered<T>(items: Seq<T>, before: spec_fn(T, T) -> bool) -> bool {
    forall|i: int, j: int| 0 <= i < j < items.len() ==> !before(#[trigger] items[j], #[trigger] items[i])
}

/// `before` orders by a key: it is asymmetric, and "not before" is
/// transitive.
pub open spec fn is_key_order<T>(before: spec_fn(T, T) -> bool) -> bool {
    &&& forall|a: T, b: T| #[trigger] before(a, b) ==> !before(b, a)
    &&& forall|a: T, b: T, c: T|
        #![trigger before(a, b), before(b, c)]
        !before(a, b) && !before(b, c) ==> !before(a, c)
}

/// Inserting by scanning back from the end of `sorted` to the first element
/// that `item` does not come before gives `insert_ordered`.
pub proof fn lemma_insert_at<T>(sorted: Seq<T>, item: T, before: spec_fn(T, T) -> bool, position: int)
    requires
        0 <= position <= sorted.len(),
        forall|j: int| position <= j < sorted.len() ==> before(item, #[trigger] sorted[j]),
        position == 0 || !before(item, sorted[position - 1]),
    ensures
        insert_ordered(sorted, item, before) == sorted.insert(position, item),
    decreases sorted.len(),
{
    if sorted.len() == 0 {
        assert(sorted.insert(position, item) =~= seq![item]);
    } else if position == sorted.len() {
        assert(sorted.insert(position, item) =~= sorted.push(item));
    } else {
        assert(before(item, sorted[sorted.len() - 1]));
        lemma_insert_at(sorted.drop_last(), item, before, position);
        assert(sorted.drop_last().insert(position, item).push(sorted.last()) =~= sorted.insert(
            position,
            item,
        ));
    }
}

/// Insertion keeps the multiset of elements and adds the new one.
pub proof fn lemma_insert_ordered_multiset<T>(sorted: Seq<T>, item: T, before: spec_fn(T, T) -> bool)
    ensures
        insert_ordered(sorted, item, before).to_multiset() =~= sorted.to_multiset().insert(item),
        insert_ordered(sorted, item, before).len() == sorted.len() + 1,
    decreases sorted.len(),
{
    broadcast use to_multiset_build, vstd::multiset::group_multiset_axioms;

    if sorted.len() == 0 {
        assert(seq![item] =~= Seq::<T>::empty().push(item));
        assert(Seq::<T>::empty().to_multiset() =~= Multiset::<T>::empty()) by {
            broadcast use to_multiset_contains;

            assert forall|a: T| Seq::<T>::empty().to_multiset().count(a) == 0 by {
                assert(!Seq::<T>::empty().contains(a));
            }
        }
        assert(sorted =~= Seq::<T>::empty());
    } else if before(item, sorted.last()) {
        let rest = sorted.drop_last();
        lemma_insert_ordered_multiset(rest, item, before);
        assert(sorted =~= rest.push(sorted.last()));
        assert(rest.to_multiset().insert(item).insert(sorted.last()) =~= rest.to_multiset().insert(
            sorted.last(),
        ).insert(item));
    }
}

/// Sorting keeps the multiset of elements.
pub proof fn lemma_sort_ordered_multiset<T>(items: Seq<T>, before: spec_fn(T, T) -> bool)
    ensures
        sort_ordered(items, before).to_multiset() =~= items.to_multiset(),
        sort_ordered(items, before).len() == items.len(),
    decreases items.len(),
{
    broadcast use to_multiset_build, vstd::multiset::group_multiset_axioms;

    if items.len() == 0 {
        assert(Seq::<T>::empty().to_multiset() =~= Multiset::<T>::empty()) by {
            broadcast use to_multiset_contains;

            assert forall|a: T| Seq::<T>::empty().to_multiset().count(a) == 0 by {
                assert(!Seq::<T>::empty().contains(a));
            }
        }
        assert(items =~= Seq::<T>::empty());
    } else {
        lemma_sort_ordered_multiset(items.drop_last(), before);
        lemma_insert_ordered_multiset(sort_ordered(items.drop_last(), before), items.last(), before);
        assert(items =~= items.drop_last().push(items.last()));
    }
}

/// Every element of an insertion comes from the sequence or is the new one.
proof fn lemma_insert_ordered_elements<T>(sorted: Seq<T>, item: T, before: spec_fn(T, T) -> bool)
    ensures
        forall|i: int|
            0 <= i < insert_ordered(sorted, item, before).len() ==> (#[trigger] insert_ordered(
                sorted,
                item,
                before,
            )[i] == item || sorted.contains(insert_ordered(sorted, item, before)[i])),
    decreases sorted.len(),
{
    lemma_insert_ordered_multiset(sorted, item, before);
    if sorted.len() > 0 && before(item, sorted.last()) {
        lemma_insert_ordered_elements(sorted.drop_last(), item, before);
        let inner = insert_ordered(sorted.drop_last(), item, before);
        assert forall|i: int| 0 <= i < insert_ordered(sorted, item, before).len() implies (
        #[trigger] insert_ordered(sorted, item, before)[i] == item || sorted.contains(
            insert_ordered(sorted, item, before)[i],
        )) by {
            if i < inner.len() {
                if inner[i] != item {
                    let k = choose|k: int| 0 <= k < sorted.drop_last().len() && sorted.drop_last()[k]
                        == inner[i];
                    assert(sorted[k] == inner[i]);
                }
            } else {
                assert(sorted[sorted.len() - 1] == sorted.last());
            }
        }
    } else if sorted.len() > 0 {
        assert forall|i: int| 0 <= i < insert_ordered(sorted, item, before).len() implies (
        #[trigger] insert_ordered(sorted, item, before)[i] == item || sorted.contains(
            insert_ordered(sorted, item, before)[i],
        )) by {
            if i < sorted.len() {
                assert(sorted[i] == insert_ordered(sorted, item, before)[i]);
            }
        }
    }
}

/// Insertion into an ordered sequence by a key order gives an ordered
/// sequence.
pub proof fn lemma_insert_ordered_is_ordered<T>(
    sorted: Seq<T>,
    item: T,
    before: spec_fn(T, T) -> bool,
)
    requires
        is_key_order(before),
        is_ordered(sorted, before),
    ensures
        is_ordered(insert_ordered(sorted, item, before), before),
    decreases sorted.len(),
{
    let result = insert_ordered(sorted, item, before);
    if sorted.len() == 0 {
    } else if before(item, sorted.last()) {
        let rest = sorted.drop_last();
        let last = sorted.last();
        assert(is_ordered(rest, before));
        lemma_insert_ordered_is_ordered(rest, item, before);
        lemma_insert_ordered_elements(rest, item, before);
        let inner = insert_ordered(rest, item, before);
        assert forall|i: int, j: int| 0 <= i < j < result.len() implies !before(
            #[trigger] result[j],
            #[trigger] result[i],
        ) by {
            if j == result.len() - 1 {
                assert(result[j] == last);
                assert(result[i] == inner[i]);
                if inner[i] == item {
                    assert(!before(last, item));
                } else {
                    let k = choose|k: int| 0 <= k < rest.len() && rest[k] == inner[i];
                    assert(sorted[k] == rest[k]);
                    assert(!before(sorted[sorted.len() - 1], sorted[k]));
                }
            } else {
                assert(result[i] == inner[i]);
                assert(result[j] == inner[j]);
            }
        }
    } else {
        let last = sorted.last();
        assert forall|i: int, j: int| 0 <= i < j < result.len() implies !before(
            #[trigger] result[j],
            #[trigger] result[i],
        ) by {
            if j == result.len() - 1 {
                assert(result[j] == item);
                assert(result[i] == sorted[i]);
                if i < sorted.len() - 1 {
                    assert(!before(sorted[sorted.len() - 1], sorted[i]));
                    assert(!before(item, sorted[sorted.len() - 1]));
                }
            } else {
                assert(result[i] == sorted[i]);
                assert(result[j] == sorted[j]);
            }
        }
    }
}

/// The stable sort by a key order is ordered.
pub proof fn lemma_sort_ordered_is_ordered<T>(items: Seq<T>, before: spec_fn(T, T) -> bool)
    requires
        is_key_order(before),
    ensures
        is_ordered(sort_ordered(items, before), before),
    decreases items.len(),
{
    if items.len() > 0 {
        lemma_sort_ordered_is_ordered(items.drop_last(), before);
        lemma_insert_ordered_is_ordered(sort_ordered(items.drop_last(), before), items.last(), before);
    }
}

/// Two orderings of the same elements agree when no two distinct elements
/// are unordered either way.
pub proof fn lemma_ordered_permutations_equal<T>(
    first: Seq<T>,
    second: Seq<T>,
    before: spec_fn(T, T) -> bool,
)
    requires
        is_ordered(first, before),
        is_ordered(second, before),
        first.to_multiset() == second.to_multiset(),
        forall|a: T, b: T|
            first.contains(a) && first.contains(b) && !before(a, b) && !before(b, a) ==> a == b,
    ensures
        first == second,
    decreases first.len(),
{
    broadcast use to_multiset_build, to_multiset_len, to_multiset_contains,
        vstd::multiset::group_multiset_axioms;

    assert(first.len() == first.to_multiset().len());
    assert(second.len() == second.to_multiset().len());
    if first.len() == 0 {
        assert(second.len() == 0);
        assert(first =~= second);
    } else {
        let n = first.len() - 1;
        let (a, b) = (first.last(), second.last());
        assert(first.to_multiset().count(a) > 0);
        assert(second.contains(a));
        let k = choose|k: int| 0 <= k < second.len() && second[k] == a;
        assert(k == n || !before(second[n], second[k]));
        assert(second.to_multiset().count(b) > 0);
        assert(first.contains(b));
        let j = choose|j: int| 0 <= j < first.len() && first[j] == b;
        assert(j == n || !before(first[n], first[j]));
        assert(first.contains(a)) by {
            assert(first[n] == a);
        }
        assert(a == b);
        let (rest_first, rest_second) = (first.drop_last(), second.drop_last());
        assert(first =~= rest_first.push(a));
        assert(second =~= rest_second.push(a));
        assert(rest_first.to_multiset() =~= rest_second.to_multiset()) by {
            assert forall|e: T| #[trigger] rest_first.to_multiset().count(e) == rest_second.to_multiset().count(e) by {
                assert(rest_first.push(a).to_multiset().count(e) == rest_second.push(a).to_multiset().count(e));
            }
        }
        assert forall|i: int, l: int| 0 <= i < l < rest_first.len() implies !before(
            #[trigger] rest_first[l],
            #[trigger] rest_first[i],
        ) by {
            assert(!before(first[l], first[i]));
        }
        assert forall|i: int, l: int| 0 <= i < l < rest_second.len() implies !before(
            #[trigger] rest_second[l],
            #[trigger] rest_second[i],
        ) by {
            assert(!before(second[l], second[i]));
        }
        assert forall|c: T, d: T|
            rest_first.contains(c) && rest_first.contains(d) && !before(c, d) && !before(d, c) implies c == d by {
            let ci = choose|ci: int| 0 <= ci < rest_first.len() && rest_first[ci] == c;
            let di = choose|di: int| 0 <= di < rest_first.len() && rest_first[di] == d;
            assert(first[ci] == c && first[di] == d);
            assert(first.contains(c) && first.contains(d));
        }
        lemma_ordered_permutations_equal(rest_first, rest_second, before);
    }
}

/// The elements of `items` that `keep` admits, in their order.
pub open spec fn kept_items<T>(items: Seq<T>, keep: spec_fn(T) -> bool) -> Seq<T>
    decreases items.len(),
{
    if items.len() == 0 {
        seq![]
    } else if keep(items.last()) {
        kept_items(items.drop_last(), keep).push(items.last())
    } else {
        kept_items(items.drop_last(), keep)
    }
}

proof fn lemma_kept_items_come_from<T>(items: Seq<T>, keep: spec_fn(T) -> bool)
    ensures
        forall|i: int|
            0 <= i < kept_items(items, keep).len() ==> exists|k: int|
                0 <= k < items.len() && items[k] == #[trigger] kept_items(items, keep)[i],
    decreases items.len(),
{
    if items.len() > 0 {
        let rest = items.drop_last();
        lemma_kept_items_come_from(rest, keep);
        let inner = kept_items(rest, keep);
        assert forall|i: int| 0 <= i < kept_items(items, keep).len() implies exists|k: int|
            0 <= k < items.len() && items[k] == #[trigger] kept_items(items, keep)[i] by {
            if i < inner.len() {
                let k = choose|k: int| 0 <= k < rest.len() && rest[k] == inner[i];
                assert(items[k] == kept_items(items, keep)[i]);
            } else {
                assert(items[items.len() - 1] == kept_items(items, keep)[i]);
            }
        }
    }
}

proof fn lemma_kept_items_of_insert<T>(
    sorted: Seq<T>,
    item: T,
    before: spec_fn(T, T) -> bool,
    keep: spec_fn(T) -> bool,
)
    requires
        is_key_order(before),
        is_ordered(sorted, before),
    ensures
        kept_items(insert_ordered(sorted, item, before), keep) == if keep(item) {
            insert_ordered(kept_items(sorted, keep), item, before)
        } else {
            kept_items(sorted, keep)
        },
    decreases sorted.len(),
{
    if sorted.len() == 0 {
        assert(seq![item].drop_last() =~= sorted);
        assert(seq![item].last() == item);
        assert(insert_ordered(sorted, item, before) == seq![item]);
        assert(kept_items(sorted, keep) == Seq::<T>::empty());
        assert(Seq::<T>::empty().push(item) =~= seq![item]);
    } else {
        let rest = sorted.drop_last();
        let last = sorted.last();
        assert(sorted =~= rest.push(last));
        assert(is_ordered(rest, before));
        lemma_kept_items_of_insert(rest, item, before, keep);
        let inner = kept_items(rest, keep);
        if keep(last) {
            assert(kept_items(sorted, keep) == inner.push(last));
            assert(inner.push(last).drop_last() =~= inner);
            assert(inner.push(last).last() == last);
        } else {
            assert(kept_items(sorted, keep) == inner);
        }
        if before(item, last) {
            let inserted = insert_ordered(rest, item, before);
            assert(insert_ordered(sorted, item, before) == inserted.push(last));
            assert(inserted.push(last).drop_last() =~= inserted);
            assert(inserted.push(last).last() == last);
        } else {
            assert(insert_ordered(sorted, item, before) == sorted.push(item));
            assert(sorted.push(item).drop_last() =~= sorted);
            assert(sorted.push(item).last() == item);
            if keep(item) && !keep(last) && inner.len() > 0 {
                lemma_kept_items_come_from(rest, keep);
                assert(inner[inner.len() - 1] == inner.last());
                let k = choose|k: int| 0 <= k < rest.len() && rest[k] == inner[inner.len() - 1];
                assert(sorted[k] == inner.last());
                assert(!before(sorted[sorted.len() - 1], sorted[k]));
                assert(!before(item, last) && !before(last, inner.last()));
                assert(!before(item, inner.last()));
            }
        }
    }
}

/// Keeping the elements that a predicate admits commutes with the stable
/// sort by a key order: sorting the kept elements gives the kept elements of
/// the sorted sequence.
pub proof fn lemma_kept_items_of_sort<T>(
    items: Seq<T>,
    before: spec_fn(T, T) -> bool,
    keep: spec_fn(T) -> bool,
)
    requires
        is_key_order(before),
    ensures
        kept_items(sort_ordered(items, before), keep) == sort_ordered(
            kept_items(items, keep),
            before,
        ),
    decreases items.len(),
{
    if items.len() > 0 {
        let rest = items.drop_last();
        lemma_kept_items_of_sort(rest, before, keep);
        lemma_sort_ordered_is_ordered(rest, before);
        lemma_kept_items_of_insert(sort_ordered(rest, before), items.last(), before, keep);
        if keep(items.last()) {
            let kept = kept_items(items, keep);
            assert(kept.drop_last() == kept_items(rest, keep));
            assert(kept.last() == items.last());
        }
    }
}

} // verus!
