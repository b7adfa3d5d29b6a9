//! Sorting, and how often things occur in lists.
use crate::text;
use std::collections::VecDeque;
use vstd::prelude::*;

verus! {

/// How often an item occurs in a list.
pub open spec fn occurrences<T>(items: Seq<T>, item: T) -> nat
    decreases items.len(),
{
    if items.len() == 0 {
        0
    } else {
        occurrences(items.drop_last(), item) + if items.last() == item {
            1nat
        } else {
            0nat
        }
    }
}

/// Occurrences in parts add up.
pub proof fn lemma_occurrences_add<T>(a: Seq<T>, b: Seq<T>, item: T)
    ensures
        occurrences(a + b, item) == occurrences(a, item) + occurrences(b, item),
    decreases b.len(),
{
    if b.len() == 0 {
        assert(a + b =~= a);
    } else {
        assert((a + b).drop_last() =~= a + b.drop_last());
        lemma_occurrences_add(a, b.drop_last(), item);
    }
}

/// What occurs in a list is one of its items, and the other way round.
pub proof fn lemma_occurs<T>(items: Seq<T>, item: T)
    ensures
        occurrences(items, item) > 0 <==> items.contains(item),
    decreases items.len(),
{
    if items.len() > 0 {
        let front = items.drop_last();
        lemma_occurs(front, item);
        if front.contains(item) {
            let k = choose|k: int| 0 <= k < front.len() && front[k] == item;
            assert(items[k] == item);
        }
        if items.last() == item {
            assert(items[items.len() - 1] == item);
        }
        if items.contains(item) && items.last() != item {
            let k = choose|k: int| 0 <= k < items.len() && items[k] == item;
            assert(front[k] == item);
        }
    }
}

/// Whether two lists hold the same items equally often.
pub open spec fn same_items<T>(a: Seq<T>, b: Seq<T>) -> bool {
    forall|item: T| #[trigger] occurrences(a, item) == occurrences(b, item)
}

/// A value that can be put in order.
pub trait Ordered: View + Sized {
    /// Whether a value may stand before another.
    spec fn le(a: Self::V, b: Self::V) -> bool;

    proof fn lemma_total(a: Self::V, b: Self::V)
        ensures
            Self::le(a, b) || Self::le(b, a),
    ;

    proof fn lemma_transitive(a: Self::V, b: Self::V, c: Self::V)
        requires
            Self::le(a, b),
            Self::le(b, c),
        ensures
            Self::le(a, c),
    ;

    /// Whether this value may stand before another.
    fn at_most(&self, other: &Self) -> (result: bool)
        ensures
            result == Self::le(self@, other@),
    ;
}

/// Whether a list is in order.
pub open spec fn sorted<T: Ordered>(items: Seq<T::V>) -> bool {
    forall|i: int, j: int|
        0 <= i < j < items.len() ==> #[trigger] T::le(#[trigger] items[i], #[trigger] items[j])
}

/// The items of a list that rank with a value, in the order of the list.
pub open spec fn alike<T: Ordered>(items: Seq<T::V>, value: T::V) -> Seq<T::V>
    decreases items.len(),
{
    if items.len() == 0 {
        items
    } else if T::le(items.last(), value) && T::le(value, items.last()) {
        alike::<T>(items.drop_last(), value).push(items.last())
    } else {
        alike::<T>(items.drop_last(), value)
    }
}

/// Whether items that rank alike stand in the same order in two lists.
pub open spec fn stable<T: Ordered>(a: Seq<T::V>, b: Seq<T::V>) -> bool {
    forall|value: T::V| #[trigger] alike::<T>(a, value) == alike::<T>(b, value)
}

/// What ranks alike in two parts comes one after the other.
proof fn lemma_alike_add<T: Ordered>(a: Seq<T::V>, b: Seq<T::V>, value: T::V)
    ensures
        alike::<T>(a + b, value) == alike::<T>(a, value) + alike::<T>(b, value),
    decreases b.len(),
{
    if b.len() == 0 {
        assert(a + b =~= a);
        assert(alike::<T>(a, value) + alike::<T>(b, value) =~= alike::<T>(a, value));
    } else {
        assert((a + b).drop_last() =~= a + b.drop_last());
        lemma_alike_add::<T>(a, b.drop_last(), value);
        assert(alike::<T>(a + b, value) =~= alike::<T>(a, value) + alike::<T>(b, value));
    }
}

/// Where no item ranks with a value, there is none to put in order.
proof fn lemma_alike_none<T: Ordered>(items: Seq<T::V>, value: T::V)
    requires
        forall|i: int|
            0 <= i < items.len() ==> !(T::le(#[trigger] items[i], value) && T::le(
                value,
                items[i],
            )),
    ensures
        alike::<T>(items, value).len() == 0,
    decreases items.len(),
{
    if items.len() > 0 {
        let front = items.drop_last();
        assert forall|i: int| 0 <= i < front.len() implies !(T::le(#[trigger] front[i], value)
            && T::le(value, front[i])) by {
            assert(front[i] == items[i]);
        }
        lemma_alike_none::<T>(front, value);
        assert(items[items.len() - 1] == items.last());
    }
}

/// Taking the first item of the second list before those of the first one, of
/// which none may stand before it, keeps the order of what ranks alike.
proof fn lemma_taken_right<T: Ordered>(done: Seq<T::V>, l: Seq<T::V>, r: Seq<T::V>)
    requires
        r.len() > 0,
        sorted::<T>(l),
        l.len() > 0 ==> !T::le(l[0], r[0]),
    ensures
        stable::<T>(done.push(r[0]) + l + r.drop_first(), done + l + r),
{
    let one = seq![r[0]];
    assert forall|x: T::V| #[trigger] alike::<T>(done.push(r[0]) + l + r.drop_first(), x)
        == alike::<T>(done + l + r, x) by {
        assert(done.push(r[0]) =~= done + one);
        assert(one + r.drop_first() =~= r);
        lemma_alike_add::<T>(done + one + l, r.drop_first(), x);
        lemma_alike_add::<T>(done + one, l, x);
        lemma_alike_add::<T>(done, one, x);
        lemma_alike_add::<T>(done + l, r, x);
        lemma_alike_add::<T>(done, l, x);
        lemma_alike_add::<T>(one, r.drop_first(), x);
        if T::le(r[0], x) && T::le(x, r[0]) {
            assert forall|i: int| 0 <= i < l.len() implies !(T::le(#[trigger] l[i], x) && T::le(
                x,
                l[i],
            )) by {
                if T::le(l[i], x) {
                    T::lemma_transitive(l[i], x, r[0]);
                    if i > 0 {
                        assert(T::le(l[0], l[i]));
                        T::lemma_transitive(l[0], l[i], r[0]);
                    }
                }
            }
            lemma_alike_none::<T>(l, x);
        } else {
            assert(one.drop_last() =~= Seq::<T::V>::empty());
            assert(alike::<T>(one.drop_last(), x).len() == 0);
            assert(alike::<T>(one, x).len() == 0);
        }
        assert(alike::<T>(done + one + l + r.drop_first(), x) =~= alike::<T>(done + l + r, x));
    }
}

/// Whether every item of a list may stand before a value.
spec fn all_before<T: Ordered>(items: Seq<T::V>, value: T::V) -> bool {
    forall|i: int| 0 <= i < items.len() ==> T::le(#[trigger] items[i], value)
}

proof fn lemma_sorted_push<T: Ordered>(items: Seq<T::V>, value: T::V)
    requires
        sorted::<T>(items),
        all_before::<T>(items, value),
    ensures
        sorted::<T>(items.push(value)),
{
    let all = items.push(value);
    assert forall|i: int, j: int| 0 <= i < j < all.len() implies #[trigger] T::le(
        #[trigger] all[i],
        #[trigger] all[j],
    ) by {
        if j < items.len() {
            assert(T::le(items[i], items[j]));
        }
    }
}

fn merge<T: Ordered>(first: VecDeque<T>, second: VecDeque<T>) -> (result: VecDeque<T>)
    requires
        sorted::<T>(text::views(first@)),
        sorted::<T>(text::views(second@)),
    ensures
        sorted::<T>(text::views(result@)),
        same_items(text::views(result@), text::views(first@) + text::views(second@)),
        stable::<T>(text::views(result@), text::views(first@) + text::views(second@)),
{
    let ghost all = text::views(first@) + text::views(second@);
    let mut left = first;
    let mut right = second;
    let mut result: VecDeque<T> = VecDeque::new();
    assert(text::views(result@) =~= Seq::<T::V>::empty());
    assert(text::views(result@) + text::views(left@) + text::views(right@) =~= all);
    loop
        invariant
            sorted::<T>(text::views(result@)),
            sorted::<T>(text::views(left@)),
            sorted::<T>(text::views(right@)),
            forall|i: int|
                0 <= i < left@.len() ==> all_before::<T>(
                    text::views(result@),
                    #[trigger] text::views(left@)[i],
                ),
            forall|i: int|
                0 <= i < right@.len() ==> all_before::<T>(
                    text::views(result@),
                    #[trigger] text::views(right@)[i],
                ),
            all == text::views(first@) + text::views(second@),
            same_items(text::views(result@) + text::views(left@) + text::views(right@), all),
            stable::<T>(text::views(result@) + text::views(left@) + text::views(right@), all),
        decreases left@.len() + right@.len(),
    {
        let take_left = if left.len() == 0 {
            if right.len() == 0 {
                assert(text::views(result@) + text::views(left@) + text::views(right@)
                    =~= text::views(result@));
                return result;
            }
            false
        } else if right.len() == 0 {
            true
        } else {
            left[0].at_most(&right[0])
        };
        let ghost done = text::views(result@);
        let ghost l = text::views(left@);
        let ghost r = text::views(right@);
        if take_left {
            let item = left.pop_front().unwrap();
            assert(item@ == l[0]);
            assert(all_before::<T>(done, l[0]));
            proof {
                lemma_sorted_push::<T>(done, item@);
            }
            result.push_back(item);
            assert(text::views(result@) =~= done.push(item@));
            assert(text::views(left@) =~= l.drop_first());
            proof {
                assert forall|i: int| 0 <= i < left@.len() implies all_before::<T>(
                    text::views(result@),
                    #[trigger] text::views(left@)[i],
                ) by {
                    assert(text::views(left@)[i] == l[i + 1]);
                    assert(T::le(l[0], l[i + 1]));
                    assert(all_before::<T>(done, l[i + 1]));
                }
                assert forall|i: int| 0 <= i < right@.len() implies all_before::<T>(
                    text::views(result@),
                    #[trigger] text::views(right@)[i],
                ) by {
                    assert(text::views(right@)[i] == r[i]);
                    if i > 0 {
                        assert(T::le(r[0], r[i]));
                        T::lemma_transitive(l[0], r[0], r[i]);
                    }
                    assert(T::le(l[0], r[i]));
                }
                assert(done.push(item@) + l.drop_first() + r =~= done + l + r);
            }
        } else {
            let item = right.pop_front().unwrap();
            assert(item@ == r[0]);
            proof {
                assert(all_before::<T>(done, r[0]));
                lemma_sorted_push::<T>(done, item@);
            }
            result.push_back(item);
            assert(text::views(result@) =~= done.push(item@));
            assert(text::views(right@) =~= r.drop_first());
            proof {
                lemma_taken_right::<T>(done, l, r);
                assert(text::views(result@) + text::views(left@) + text::views(right@)
                    =~= done.push(r[0]) + l + r.drop_first());
                assert forall|i: int| 0 <= i < right@.len() implies all_before::<T>(
                    text::views(result@),
                    #[trigger] text::views(right@)[i],
                ) by {
                    assert(text::views(right@)[i] == r[i + 1]);
                    assert(T::le(r[0], r[i + 1]));
                    assert(all_before::<T>(done, r[i + 1]));
                }
                assert forall|i: int| 0 <= i < left@.len() implies all_before::<T>(
                    text::views(result@),
                    #[trigger] text::views(left@)[i],
                ) by {
                    assert(text::views(left@)[i] == l[i]);
                    T::lemma_total(l[0], r[0]);
                    if i > 0 {
                        assert(T::le(l[0], l[i]));
                        T::lemma_transitive(r[0], l[0], l[i]);
                    }
                    assert(T::le(r[0], l[i]));
                }
                assert forall|x: T::V| #[trigger]
                    occurrences(done.push(item@) + l + r.drop_first(), x) == occurrences(
                        done + l + r,
                        x,
                    ) by {
                    let one = seq![item@];
                    lemma_occurrences_add(done.push(item@) + l, r.drop_first(), x);
                    lemma_occurrences_add(done.push(item@), l, x);
                    lemma_occurrences_add(done, one, x);
                    assert(done + one =~= done.push(item@));
                    lemma_occurrences_add(done + l, r, x);
                    lemma_occurrences_add(done, l, x);
                    lemma_occurrences_add(one, r.drop_first(), x);
                    assert(one + r.drop_first() =~= r);
                }
                assert forall|x: T::V| #[trigger]
                    occurrences(
                        text::views(result@) + text::views(left@) + text::views(right@),
                        x,
                    ) == occurrences(all, x) by {
                    assert(text::views(result@) + text::views(left@) + text::views(right@)
                        =~= done.push(item@) + l + r.drop_first());
                    assert(occurrences(done + l + r, x) == occurrences(all, x));
                }
            }
        }
    }
}

/// Puts items in order. Those that rank alike stay in the order they had.
pub fn sort<T: Ordered>(items: VecDeque<T>) -> (result: VecDeque<T>)
    ensures
        sorted::<T>(text::views(result@)),
        same_items(text::views(result@), text::views(items@)),
        stable::<T>(text::views(result@), text::views(items@)),
        result@.len() == items@.len(),
    decreases items@.len(),
{
    if items.len() <= 1 {
        return items;
    }
    let ghost all = text::views(items@);
    let mut left = items;
    let middle: usize = left.len() / 2;
    let right = left.split_off(middle);
    assert(text::views(left@) + text::views(right@) =~= all);
    let ghost l = text::views(left@);
    let ghost r = text::views(right@);
    let left = sort(left);
    let right = sort(right);
    let result = merge(left, right);
    proof {
        assert forall|x: T::V| #[trigger] occurrences(text::views(result@), x) == occurrences(
            all,
            x,
        ) by {
            lemma_occurrences_add(text::views(left@), text::views(right@), x);
            lemma_occurrences_add(l, r, x);
            assert(occurrences(text::views(left@), x) == occurrences(l, x));
            assert(occurrences(text::views(right@), x) == occurrences(r, x));
        }
        assert forall|x: T::V| #[trigger] alike::<T>(text::views(result@), x) == alike::<T>(
            all,
            x,
        ) by {
            lemma_alike_add::<T>(text::views(left@), text::views(right@), x);
            lemma_alike_add::<T>(l, r, x);
            assert(alike::<T>(text::views(left@), x) == alike::<T>(l, x));
            assert(alike::<T>(text::views(right@), x) == alike::<T>(r, x));
        }
        lemma_same_length(text::views(result@), all);
        assert(text::views(result@).len() == result@.len());
    }
    result
}

/// Lists of the same items are equally long.
pub proof fn lemma_same_length<T>(a: Seq<T>, b: Seq<T>)
    requires
        same_items(a, b),
    ensures
        a.len() == b.len(),
    decreases a.len(),
{
    if a.len() == 0 {
        if b.len() > 0 {
            lemma_occurs(b, b[0]);
            lemma_occurs(a, b[0]);
            assert(b.contains(b[0]));
            assert(occurrences(a, b[0]) == occurrences(b, b[0]));
        }
    } else {
        let item = a.last();
        assert(a.contains(item)) by {
            assert(a[a.len() - 1] == item);
        }
        lemma_occurs(a, item);
        lemma_occurs(b, item);
        assert(occurrences(a, item) == occurrences(b, item));
        let k = choose|k: int| 0 <= k < b.len() && b[k] == item;
        let front = a.drop_last();
        let rest = b.remove(k);
        assert forall|x: T| #[trigger] occurrences(front, x) == occurrences(rest, x) by {
            let one = seq![item];
            lemma_occurrences_add(front, one, x);
            assert(front + one =~= a);
            lemma_occurrences_add(b.take(k), one, x);
            lemma_occurrences_add(b.take(k) + one, b.skip(k + 1), x);
            assert(b.take(k) + one + b.skip(k + 1) =~= b);
            lemma_occurrences_add(b.take(k), b.skip(k + 1), x);
            assert(b.take(k) + b.skip(k + 1) =~= rest);
            assert(occurrences(a, x) == occurrences(b, x));
        }
        lemma_same_length(front, rest);
    }
}

} // verus!
