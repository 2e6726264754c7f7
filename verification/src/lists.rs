//! Facts about selecting and counting the items of a list, one item at a time.
use vstd::prelude::*;

verus! {

/// One more item makes the selection at most one longer.
pub proof fn lemma_filter_step<T>(items: Seq<T>, i: int, pred: spec_fn(T) -> bool)
    requires
        0 <= i < items.len(),
    ensures
        items.take(i + 1).filter(pred) == (if pred(items[i]) {
            items.take(i).filter(pred).push(items[i])
        } else {
            items.take(i).filter(pred)
        }),
        items.take(i).filter(pred).len() <= i,
{
    assert(items.take(i + 1).drop_last() =~= items.take(i));
    assert(items.take(i + 1).last() == items[i]);
    reveal_with_fuel(Seq::filter, 1);
    items.take(i).lemma_filter_len(pred);
}

/// One more item adds what is made of it, if anything is.
pub proof fn lemma_filter_map_step<T, U>(items: Seq<T>, i: int, f: spec_fn(T) -> Option<U>)
    requires
        0 <= i < items.len(),
    ensures
        items.take(i + 1).filter_map(f) == (match f(items[i]) {
            Some(made) => items.take(i).filter_map(f).push(made),
            None => items.take(i).filter_map(f),
        }),
{
    assert(items.take(i + 1).drop_last() =~= items.take(i));
    assert(items.take(i + 1).last() == items[i]);
    reveal_with_fuel(Seq::filter_map, 1);
    if f(items[i]) is Some {
        assert(items.take(i).filter_map(f) + seq![f(items[i])->0] =~= items.take(i).filter_map(
            f,
        ).push(f(items[i])->0));
    }
}

/// The sum of what the items count for.
pub open spec fn total<T>(items: Seq<T>, count: spec_fn(T) -> nat) -> nat
    decreases items.len(),
{
    if items.len() == 0 {
        0
    } else {
        total(items.drop_last(), count) + count(items.last())
    }
}

/// One more item adds what it counts for.
pub proof fn lemma_total_step<T>(items: Seq<T>, i: int, count: spec_fn(T) -> nat)
    requires
        0 <= i < items.len(),
    ensures
        total(items.take(i + 1), count) == total(items.take(i), count) + count(items[i]),
        total(items.take(i + 1), count) <= total(items, count),
    decreases items.len() - i,
{
    assert(items.take(i + 1).drop_last() =~= items.take(i));
    assert(items.take(i + 1).last() == items[i]);
    if i + 1 < items.len() {
        lemma_total_step(items, i + 1, count);
    } else {
        assert(items.take(i + 1) =~= items);
    }
}

/// Nothing is selected from, made of or counted in an empty list.
pub proof fn lemma_no_items<T>(items: Seq<T>)
    ensures
        items.take(0) == Seq::<T>::empty(),
        forall|pred: spec_fn(T) -> bool| #[trigger]
            items.take(0).filter(pred) == Seq::<T>::empty(),
        items.take(items.len() as int) == items,
{
    assert(items.take(0) =~= Seq::<T>::empty());
    assert(items.take(items.len() as int) =~= items);
    reveal_with_fuel(Seq::filter, 1);
}

} // verus!
