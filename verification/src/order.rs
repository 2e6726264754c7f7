//! Ordering of names, and a stable sort by it.
use vstd::prelude::*;

use crate::text::chars_of;

verus! {

/// Whether `a` comes before `b`: at the first character in which they differ, or as a
/// shorter beginning of it.
pub open spec fn text_before(a: Seq<char>, b: Seq<char>) -> bool
    decreases a.len(),
{
    if b.len() == 0 {
        false
    } else if a.len() == 0 {
        true
    } else if a[0] != b[0] {
        a[0] < b[0]
    } else {
        text_before(a.drop_first(), b.drop_first())
    }
}

/// Whether the list `a` comes before the list `b`, name by name.
pub open spec fn list_before(a: Seq<Seq<char>>, b: Seq<Seq<char>>) -> bool
    decreases a.len(),
{
    if b.len() == 0 {
        false
    } else if a.len() == 0 {
        true
    } else if a[0] != b[0] {
        text_before(a[0], b[0])
    } else {
        list_before(a.drop_first(), b.drop_first())
    }
}

/// Of two different texts one comes before the other, and not both.
pub proof fn text_order_is_total(a: Seq<char>, b: Seq<char>)
    ensures
        text_before(a, b) ==> !text_before(b, a),
        a != b ==> text_before(a, b) || text_before(b, a),
        a == b ==> !text_before(a, b),
    decreases a.len(),
{
    if a.len() > 0 && b.len() > 0 && a[0] == b[0] {
        text_order_is_total(a.drop_first(), b.drop_first());
        if a.drop_first() == b.drop_first() {
            assert(a =~= seq![a[0]] + a.drop_first());
            assert(b =~= seq![b[0]] + b.drop_first());
        }
    } else if a.len() == 0 && b.len() == 0 {
        assert(a =~= b);
    }
}

/// What comes before a text comes before all that comes after it.
pub proof fn text_order_is_transitive(a: Seq<char>, b: Seq<char>, c: Seq<char>)
    requires
        text_before(a, b),
        text_before(b, c),
    ensures
        text_before(a, c),
    decreases a.len(),
{
    if a.len() > 0 && a[0] == b[0] && b[0] == c[0] {
        text_order_is_transitive(a.drop_first(), b.drop_first(), c.drop_first());
    }
}

/// Of two different lists one comes before the other, and not both.
pub proof fn list_order_is_total(a: Seq<Seq<char>>, b: Seq<Seq<char>>)
    ensures
        list_before(a, b) ==> !list_before(b, a),
        a != b ==> list_before(a, b) || list_before(b, a),
        a == b ==> !list_before(a, b),
    decreases a.len(),
{
    if a.len() > 0 && b.len() > 0 {
        text_order_is_total(a[0], b[0]);
        if a[0] == b[0] {
            list_order_is_total(a.drop_first(), b.drop_first());
            if a.drop_first() == b.drop_first() {
                assert(a =~= seq![a[0]] + a.drop_first());
                assert(b =~= seq![b[0]] + b.drop_first());
            }
        }
    } else if a.len() == 0 && b.len() == 0 {
        assert(a =~= b);
    }
}

/// What comes before a list comes before all that comes after it.
pub proof fn list_order_is_transitive(a: Seq<Seq<char>>, b: Seq<Seq<char>>, c: Seq<Seq<char>>)
    requires
        list_before(a, b),
        list_before(b, c),
    ensures
        list_before(a, c),
    decreases a.len(),
{
    if a.len() > 0 {
        if a[0] == b[0] && b[0] == c[0] {
            list_order_is_transitive(a.drop_first(), b.drop_first(), c.drop_first());
        } else if a[0] != b[0] && b[0] != c[0] {
            text_order_is_transitive(a[0], b[0], c[0]);
            text_order_is_total(a[0], c[0]);
        }
    }
}

/// Whether `a` comes before `b`.
pub fn is_before(a: &str, b: &str) -> (r: bool)
    ensures
        r == text_before(a@, b@),
{
    let left = chars_of(a);
    let right = chars_of(b);
    let mut i: usize = 0;
    proof {
        assert(left@.skip(0) =~= left@);
        assert(right@.skip(0) =~= right@);
    }
    loop
        invariant
            left@ == a@,
            right@ == b@,
            i <= left@.len(),
            i <= right@.len(),
            text_before(a@, b@) == text_before(left@.skip(i as int), right@.skip(i as int)),
        decreases left@.len() - i,
    {
        if i == right.len() {
            return false;
        }
        if i == left.len() {
            return true;
        }
        proof {
            assert(left@.skip(i as int)[0] == left@[i as int]);
            assert(right@.skip(i as int)[0] == right@[i as int]);
            assert(left@.skip(i as int).drop_first() =~= left@.skip(i + 1));
            assert(right@.skip(i as int).drop_first() =~= right@.skip(i + 1));
        }
        if left[i] != right[i] {
            return left[i] < right[i];
        }
        i += 1;
    }
}

/// What can be sorted: values with a total preorder.
pub trait Ranked: Sized {
    /// Whether this value sorts strictly before another.
    spec fn ranks_before(self, other: Self) -> bool;

    /// Whether this value sorts strictly before another.
    fn precedes(&self, other: &Self) -> (r: bool)
        ensures
            r == self.ranks_before(*other),
    ;

    proof fn order_is_asymmetric(a: Self, b: Self)
        ensures
            a.ranks_before(b) ==> !b.ranks_before(a),
    ;

    /// What does not come after a value does not come after what that does not come after.
    proof fn order_is_transitive(a: Self, b: Self, c: Self)
        requires
            !b.ranks_before(a),
            !c.ranks_before(b),
        ensures
            !c.ranks_before(a),
    ;
}

impl Ranked for String {
    open spec fn ranks_before(self, other: Self) -> bool {
        text_before(self@, other@)
    }

    fn precedes(&self, other: &Self) -> (r: bool) {
        is_before(self.as_str(), other.as_str())
    }

    proof fn order_is_asymmetric(a: Self, b: Self) {
        text_order_is_total(a@, b@);
    }

    proof fn order_is_transitive(a: Self, b: Self, c: Self) {
        lemma_not_after_is_transitive(a@, b@, c@);
    }
}

/// Names that do not come after each other in turn are in order as a whole.
pub proof fn lemma_not_after_is_transitive(a: Seq<char>, b: Seq<char>, c: Seq<char>)
    requires
        !text_before(b, a),
        !text_before(c, b),
    ensures
        !text_before(c, a),
{
    text_order_is_total(a, b);
    text_order_is_total(b, c);
    text_order_is_total(a, c);
    if text_before(c, a) && a != b && b != c {
        text_order_is_transitive(a, b, c);
    }
}

/// Where a new value goes in a sorted list: behind all that it does not come before.
pub open spec fn rank_of<T: Ranked>(sorted: Seq<T>, value: T) -> nat
    decreases sorted.len(),
{
    if sorted.len() == 0 || !value.ranks_before(sorted.last()) {
        sorted.len()
    } else {
        rank_of(sorted.drop_last(), value)
    }
}

/// The values of a list in order; values of the same rank keep their order.
pub open spec fn sorted<T: Ranked>(items: Seq<T>) -> Seq<T>
    decreases items.len(),
{
    if items.len() == 0 {
        Seq::empty()
    } else {
        let before = sorted(items.drop_last());
        before.insert(rank_of(before, items.last()) as int, items.last())
    }
}

/// Whether a list is in order.
pub open spec fn in_order<T: Ranked>(items: Seq<T>) -> bool {
    forall|i: int, j: int|
        0 <= i < j < items.len() ==> !(#[trigger] items[j]).ranks_before(#[trigger] items[i])
}

proof fn lemma_rank<T: Ranked>(list: Seq<T>, value: T)
    ensures
        rank_of(list, value) <= list.len(),
        forall|j: int| rank_of(list, value) <= j < list.len() ==> value.ranks_before(#[trigger] list[j]),
        rank_of(list, value) > 0 ==> !value.ranks_before(list[rank_of(list, value) - 1]),
    decreases list.len(),
{
    if list.len() > 0 && value.ranks_before(list.last()) {
        lemma_rank(list.drop_last(), value);
        assert forall|j: int| rank_of(list, value) <= j < list.len() implies value.ranks_before(
            #[trigger] list[j],
        ) by {
            if j < list.len() - 1 {
                assert(list.drop_last()[j] == list[j]);
            }
        }
    }
}

proof fn lemma_insert_keeps_order<T: Ranked>(list: Seq<T>, value: T)
    requires
        in_order(list),
    ensures
        in_order(list.insert(rank_of(list, value) as int, value)),
{
    lemma_rank(list, value);
    let r = rank_of(list, value) as int;
    let after = list.insert(r, value);
    assert forall|i: int, j: int| 0 <= i < j < after.len() implies !(
    #[trigger] after[j]).ranks_before(#[trigger] after[i]) by {
        if i == r {
            assert(after[j] == list[j - 1]);
            T::order_is_asymmetric(value, list[j - 1]);
        } else if j == r {
            assert(after[i] == list[i]);
            assert(!value.ranks_before(list[r - 1]));
            if i < r - 1 {
                assert(!list[r - 1].ranks_before(list[i]));
                T::order_is_transitive(list[i], list[r - 1], value);
            }
        } else {
            let a = if i < r { i } else { i - 1 };
            let b = if j < r { j } else { j - 1 };
            assert(after[i] == list[a] && after[j] == list[b]);
        }
    }
}

/// Sorting puts a list in order and neither adds nor drops a value.
pub proof fn sorting_orders_and_keeps<T: Ranked>(items: Seq<T>)
    ensures
        in_order(sorted(items)),
        sorted(items).len() == items.len(),
        sorted(items).to_multiset() == items.to_multiset(),
    decreases items.len(),
{
    broadcast use vstd::seq_lib::group_to_multiset_ensures;

    if items.len() > 0 {
        let shorter = items.drop_last();
        let before = sorted(shorter);
        let value = items.last();
        sorting_orders_and_keeps(shorter);
        lemma_rank(before, value);
        lemma_insert_keeps_order(before, value);
        let r = rank_of(before, value) as int;
        before.insert_ensures(r, value);
        assert(before.insert(r, value) =~= before.take(r).push(value) + before.skip(r));
        assert(items =~= shorter.push(value));
        assert(before.insert(r, value).to_multiset() == before.to_multiset().insert(value));
    } else {
        assert(sorted(items) =~= items);
    }
}

/// The values of a list in order.
pub fn sort<T: Ranked>(items: Vec<T>) -> (r: Vec<T>)
    ensures
        r@ == sorted(items@),
{
    let ghost all = items@;
    let mut out: Vec<T> = Vec::new();
    for item in it: items
        invariant
            it.seq() == all,
            out@ == sorted(all.take(it.index() as int)),
    {
        let ghost before = out@;
        let mut at: usize = out.len();
        proof {
            assert(before.take(at as int) =~= before);
        }
        while at > 0 && item.precedes(&out[at - 1])
            invariant
                at <= out@.len(),
                out@ == before,
                rank_of(before, item) == rank_of(before.take(at as int), item),
            decreases at,
        {
            proof {
                assert(before.take(at as int).drop_last() =~= before.take(at - 1));
            }
            at -= 1;
        }
        proof {
            let next = all.take(it.index() as int + 1);
            assert(next.drop_last() =~= all.take(it.index() as int));
            assert(next.last() == item);
            assert(before.take(at as int).len() == at);
        }
        out.insert(at, item);
    }
    proof {
        assert(all.take(all.len() as int) =~= all);
    }
    out
}

} // verus!
