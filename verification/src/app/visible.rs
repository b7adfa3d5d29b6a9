//! Which events are on the screen, and which is selected.
use crate::app::list_state::clamped;
use crate::buffer::{self, keep, BufferChange, ChangeView, LogBuffer};
use crate::filter::{self, FilterView, LogFilter};
use crate::model::{EventView, LogEvent};
use crate::text;
use std::collections::VecDeque;
use vstd::prelude::*;

verus! {

// ---------------------------------------------------------------------------
// Shown events
// ---------------------------------------------------------------------------

/// The events that a filter shows.
pub open spec fn shown_events(events: Seq<EventView>, filters: FilterView) -> Seq<EventView>
    decreases events.len(),
{
    if events.len() == 0 {
        events
    } else if filters.matches(events.last()) {
        shown_events(events.drop_last(), filters).push(events.last())
    } else {
        shown_events(events.drop_last(), filters)
    }
}

/// The sequence numbers of some events.
pub open spec fn sequences(events: Seq<EventView>) -> Seq<u64> {
    Seq::new(events.len(), |i: int| events[i].sequence)
}

/// Whether the event with a sequence number is there and shown.
pub open spec fn is_shown(events: Seq<EventView>, filters: FilterView, sequence: u64) -> bool {
    buffer::holds(events, sequence) && filters.matches(
        events[buffer::sequence_index(events, sequence)],
    )
}

/// The sequence numbers that are kept for a filter; none where it shows all.
pub open spec fn cache_for(events: Seq<EventView>, filters: FilterView) -> Seq<u64> {
    if filters.active() {
        sequences(shown_events(events, filters))
    } else {
        Seq::empty()
    }
}

/// Whether numbers strictly increase.
pub open spec fn increasing(numbers: Seq<u64>) -> bool {
    forall|i: int, j: int| 0 <= i < j < numbers.len() ==> numbers[i] < numbers[j]
}

// ---------------------------------------------------------------------------
// Lists of sequence numbers
// ---------------------------------------------------------------------------

/// The numbers without one.
pub open spec fn number_removed(numbers: Seq<u64>, number: u64) -> Seq<u64>
    decreases numbers.len(),
{
    if numbers.len() == 0 {
        numbers
    } else if numbers.last() == number {
        number_removed(numbers.drop_last(), number)
    } else {
        number_removed(numbers.drop_last(), number).push(numbers.last())
    }
}

/// The numbers with one more, in its place.
pub open spec fn number_inserted(numbers: Seq<u64>, number: u64) -> Seq<u64>
    decreases numbers.len(),
{
    if numbers.len() == 0 || numbers.last() < number {
        numbers.push(number)
    } else {
        number_inserted(numbers.drop_last(), number).push(numbers.last())
    }
}

/// The numbers without those that left.
pub open spec fn all_removed(numbers: Seq<u64>, removed: Seq<u64>) -> Seq<u64>
    decreases removed.len(),
{
    if removed.len() == 0 {
        numbers
    } else {
        number_removed(all_removed(numbers, removed.drop_last()), removed.last())
    }
}

/// The numbers with one looked at anew.
pub open spec fn refreshed(
    numbers: Seq<u64>,
    events: Seq<EventView>,
    filters: FilterView,
    sequence: u64,
) -> Seq<u64> {
    let others = number_removed(numbers, sequence);
    if is_shown(events, filters, sequence) {
        number_inserted(others, sequence)
    } else {
        others
    }
}

/// The numbers with some looked at anew.
pub open spec fn all_refreshed(
    numbers: Seq<u64>,
    events: Seq<EventView>,
    filters: FilterView,
    updated: Seq<u64>,
) -> Seq<u64>
    decreases updated.len(),
{
    if updated.len() == 0 {
        numbers
    } else {
        refreshed(
            all_refreshed(numbers, events, filters, updated.drop_last()),
            events,
            filters,
            updated.last(),
        )
    }
}

/// The numbers with an appended one, where it is shown.
pub open spec fn appended(
    numbers: Seq<u64>,
    events: Seq<EventView>,
    filters: FilterView,
    sequence: Option<u64>,
) -> Seq<u64> {
    match sequence {
        Some(sequence) => if is_shown(events, filters, sequence) {
            numbers.push(sequence)
        } else {
            numbers
        },
        None => numbers,
    }
}

/// The kept numbers after a change of the buffer.
pub open spec fn cache_after(
    cache: Seq<u64>,
    change: ChangeView,
    events: Seq<EventView>,
    filters: FilterView,
) -> Seq<u64> {
    if filters.active() {
        all_refreshed(
            appended(all_removed(cache, change.removed), events, filters, change.appended),
            events,
            filters,
            change.updated,
        )
    } else {
        Seq::empty()
    }
}

/// What is in the list afterwards.
pub proof fn lemma_number_removed(numbers: Seq<u64>, number: u64)
    ensures
        forall|n: u64| #[trigger]
            number_removed(numbers, number).contains(n) <==> numbers.contains(n) && n != number,
        increasing(numbers) ==> increasing(number_removed(numbers, number)),
    decreases numbers.len(),
{
    if numbers.len() > 0 {
        let front = numbers.drop_last();
        let last = numbers.last();
        lemma_number_removed(front, number);
        let kept = number_removed(front, number);
        let all = number_removed(numbers, number);
        assert forall|n: u64| #[trigger] all.contains(n) <==> numbers.contains(n) && n
            != number by {
            assert(numbers.contains(n) <==> front.contains(n) || n == last) by {
                if front.contains(n) {
                    let k = choose|k: int| 0 <= k < front.len() && front[k] == n;
                    assert(numbers[k] == n);
                }
                if n == last {
                    assert(numbers[numbers.len() - 1] == n);
                }
                if numbers.contains(n) && n != last {
                    let k = choose|k: int| 0 <= k < numbers.len() && numbers[k] == n;
                    assert(front[k] == n);
                }
            }
            assert(kept.contains(n) <==> front.contains(n) && n != number);
            if last != number {
                if kept.contains(n) {
                    let k = choose|k: int| 0 <= k < kept.len() && kept[k] == n;
                    assert(all[k] == n);
                }
                if n == last {
                    assert(all[kept.len() as int] == n);
                }
                if all.contains(n) && n != last {
                    let k = choose|k: int| 0 <= k < all.len() && all[k] == n;
                    assert(kept[k] == n);
                }
            }
        }
        if increasing(numbers) {
            assert forall|i: int, j: int| 0 <= i < j < front.len() implies front[i] < front[j] by {
                assert(numbers[i] < numbers[j]);
            }
            assert forall|i: int, j: int| 0 <= i < j < all.len() implies all[i] < all[j] by {
                if j < kept.len() {
                    assert(kept[i] < kept[j]);
                } else {
                    assert(kept.contains(kept[i]));
                    assert(front.contains(kept[i]));
                    let k = choose|k: int| 0 <= k < front.len() && front[k] == kept[i];
                    assert(numbers[k] < numbers[numbers.len() - 1]);
                }
            }
        }
    }
}

/// What is in the list afterwards.
pub proof fn lemma_number_inserted(numbers: Seq<u64>, number: u64)
    requires
        increasing(numbers),
        !numbers.contains(number),
    ensures
        forall|n: u64| #[trigger]
            number_inserted(numbers, number).contains(n) <==> numbers.contains(n) || n == number,
        increasing(number_inserted(numbers, number)),
    decreases numbers.len(),
{
    let all = number_inserted(numbers, number);
    if numbers.len() == 0 || numbers.last() < number {
        assert forall|n: u64| #[trigger] all.contains(n) <==> numbers.contains(n) || n
            == number by {
            if numbers.contains(n) {
                let k = choose|k: int| 0 <= k < numbers.len() && numbers[k] == n;
                assert(all[k] == n);
            }
            assert(all[numbers.len() as int] == number);
            if all.contains(n) && n != number {
                let k = choose|k: int| 0 <= k < all.len() && all[k] == n;
                assert(numbers[k] == n);
            }
        }
        assert forall|i: int, j: int| 0 <= i < j < all.len() implies all[i] < all[j] by {
            if j == numbers.len() {
                if i < numbers.len() - 1 {
                    assert(numbers[i] < numbers[numbers.len() - 1]);
                }
            }
        }
    } else {
        let front = numbers.drop_last();
        let last = numbers.last();
        assert(numbers.contains(last)) by {
            assert(numbers[numbers.len() - 1] == last);
        }
        assert(!front.contains(number)) by {
            if front.contains(number) {
                let k = choose|k: int| 0 <= k < front.len() && front[k] == number;
                assert(numbers[k] == number);
            }
        }
        assert forall|i: int, j: int| 0 <= i < j < front.len() implies front[i] < front[j] by {
            assert(numbers[i] < numbers[j]);
        }
        lemma_number_inserted(front, number);
        let rest = number_inserted(front, number);
        assert forall|n: u64| #[trigger] all.contains(n) <==> numbers.contains(n) || n
            == number by {
            assert(rest.contains(n) <==> front.contains(n) || n == number);
            if front.contains(n) {
                let k = choose|k: int| 0 <= k < front.len() && front[k] == n;
                assert(numbers[k] == n);
            }
            if numbers.contains(n) && n != last {
                let k = choose|k: int| 0 <= k < numbers.len() && numbers[k] == n;
                assert(front[k] == n);
            }
            if rest.contains(n) {
                let k = choose|k: int| 0 <= k < rest.len() && rest[k] == n;
                assert(all[k] == n);
            }
            assert(all[rest.len() as int] == last);
            if all.contains(n) && n != last {
                let k = choose|k: int| 0 <= k < all.len() && all[k] == n;
                assert(rest[k] == n);
            }
        }
        assert forall|i: int, j: int| 0 <= i < j < all.len() implies all[i] < all[j] by {
            if j < rest.len() {
                assert(rest[i] < rest[j]);
            } else {
                assert(rest.contains(rest[i]));
                if rest[i] != number {
                    assert(front.contains(rest[i]));
                    let k = choose|k: int| 0 <= k < front.len() && front[k] == rest[i];
                    assert(numbers[k] < numbers[numbers.len() - 1]);
                }
            }
        }
    }
}

/// What is in the list afterwards.
pub proof fn lemma_all_removed(numbers: Seq<u64>, removed: Seq<u64>)
    requires
        increasing(numbers),
    ensures
        increasing(all_removed(numbers, removed)),
        forall|n: u64| #[trigger]
            all_removed(numbers, removed).contains(n) <==> numbers.contains(n)
                && !removed.contains(n),
    decreases removed.len(),
{
    if removed.len() > 0 {
        let front = removed.drop_last();
        lemma_all_removed(numbers, front);
        lemma_number_removed(all_removed(numbers, front), removed.last());
        assert forall|n: u64| removed.contains(n) <==> #[trigger] front.contains(n) || n
            == removed.last() by {
            if front.contains(n) {
                let k = choose|k: int| 0 <= k < front.len() && front[k] == n;
                assert(removed[k] == n);
            }
            assert(removed[removed.len() - 1] == removed.last());
            if removed.contains(n) && n != removed.last() {
                let k = choose|k: int| 0 <= k < removed.len() && removed[k] == n;
                assert(front[k] == n);
            }
        }
        assert forall|n: u64| #[trigger]
            all_removed(numbers, removed).contains(n) <==> numbers.contains(n)
                && !removed.contains(n) by {
            assert(all_removed(numbers, front).contains(n) <==> numbers.contains(n)
                && !front.contains(n));
        }
    }
}

proof fn lemma_all_refreshed(
    numbers: Seq<u64>,
    events: Seq<EventView>,
    filters: FilterView,
    updated: Seq<u64>,
)
    requires
        increasing(numbers),
    ensures
        increasing(all_refreshed(numbers, events, filters, updated)),
        forall|n: u64| #[trigger]
            all_refreshed(numbers, events, filters, updated).contains(n) <==> if updated.contains(
                n,
            ) {
                is_shown(events, filters, n)
            } else {
                numbers.contains(n)
            },
    decreases updated.len(),
{
    if updated.len() > 0 {
        let front = updated.drop_last();
        let last = updated.last();
        lemma_all_refreshed(numbers, events, filters, front);
        let before = all_refreshed(numbers, events, filters, front);
        lemma_number_removed(before, last);
        let others = number_removed(before, last);
        assert(!others.contains(last));
        lemma_number_inserted(others, last);
        assert forall|n: u64| updated.contains(n) <==> #[trigger] front.contains(n) || n == last by {
            if front.contains(n) {
                let k = choose|k: int| 0 <= k < front.len() && front[k] == n;
                assert(updated[k] == n);
            }
            assert(updated[updated.len() - 1] == last);
            if updated.contains(n) && n != last {
                let k = choose|k: int| 0 <= k < updated.len() && updated[k] == n;
                assert(front[k] == n);
            }
        }
        assert forall|n: u64| #[trigger]
            all_refreshed(numbers, events, filters, updated).contains(n) <==> if updated.contains(
                n,
            ) {
                is_shown(events, filters, n)
            } else {
                numbers.contains(n)
            } by {
            assert(before.contains(n) <==> if front.contains(n) {
                is_shown(events, filters, n)
            } else {
                numbers.contains(n)
            });
            assert(others.contains(n) <==> before.contains(n) && n != last);
        }
    }
}

/// Increasing lists of the same numbers are the same.
pub proof fn lemma_same_numbers(a: Seq<u64>, b: Seq<u64>)
    requires
        increasing(a),
        increasing(b),
        forall|n: u64| #[trigger] a.contains(n) <==> b.contains(n),
    ensures
        a == b,
    decreases a.len(),
{
    if a.len() == 0 {
        if b.len() > 0 {
            assert(b.contains(b[0]));
            assert(a.contains(b[0]));
        }
        assert(a =~= b);
    } else {
        assert(a.contains(a[0]));
        assert(b.contains(a[0]));
        let last = a.last();
        assert(a.contains(last)) by {
            assert(a[a.len() - 1] == last);
        }
        let k = choose|k: int| 0 <= k < b.len() && b[k] == last;
        let other = b.last();
        assert(b.contains(other)) by {
            assert(b[b.len() - 1] == other);
        }
        assert(a.contains(other));
        let j = choose|j: int| 0 <= j < a.len() && a[j] == other;
        assert(last == other) by {
            if k < b.len() - 1 {
                assert(b[k] < b[b.len() - 1]);
                if j < a.len() - 1 {
                    assert(a[j] < a[a.len() - 1]);
                }
            }
        }
        let af = a.drop_last();
        let bf = b.drop_last();
        assert forall|n: u64| #[trigger] af.contains(n) <==> bf.contains(n) by {
            if af.contains(n) {
                let i = choose|i: int| 0 <= i < af.len() && af[i] == n;
                assert(a[i] == n && a[i] < a[a.len() - 1]);
                assert(a.contains(n));
                let m = choose|m: int| 0 <= m < b.len() && b[m] == n;
                assert(bf[m] == n);
            }
            if bf.contains(n) {
                let i = choose|i: int| 0 <= i < bf.len() && bf[i] == n;
                assert(b[i] == n && b[i] < b[b.len() - 1]);
                assert(b.contains(n));
                assert(a.contains(n));
                let m = choose|m: int| 0 <= m < a.len() && a[m] == n;
                assert(af[m] == n);
            }
        }
        assert forall|x: int, y: int| 0 <= x < y < af.len() implies af[x] < af[y] by {
            assert(a[x] < a[y]);
        }
        assert forall|x: int, y: int| 0 <= x < y < bf.len() implies bf[x] < bf[y] by {
            assert(b[x] < b[y]);
        }
        lemma_same_numbers(af, bf);
        assert(a =~= af.push(last));
        assert(b =~= bf.push(other));
    }
}

/// The shown events come in sequence, and are those that the filter matches.
pub proof fn lemma_shown_events(events: Seq<EventView>, filters: FilterView)
    requires
        buffer::in_sequence(events),
    ensures
        shown_events(events, filters).len() <= events.len(),
        increasing(sequences(shown_events(events, filters))),
        forall|n: u64| #[trigger]
            sequences(shown_events(events, filters)).contains(n) <==> is_shown(events, filters, n),
        forall|i: int|
            0 <= i < shown_events(events, filters).len() ==> buffer::holds(
                events,
                (#[trigger] shown_events(events, filters)[i]).sequence,
            ) && events[buffer::sequence_index(
                events,
                shown_events(events, filters)[i].sequence,
            )] == shown_events(events, filters)[i],
    decreases events.len(),
{
    let shown = shown_events(events, filters);
    if events.len() > 0 {
        let front = events.drop_last();
        let last = events.last();
        assert forall|i: int, j: int| 0 <= i < j < front.len() implies (
        #[trigger] front[i]).sequence < (#[trigger] front[j]).sequence by {
            assert(events[i].sequence < events[j].sequence);
        }
        lemma_shown_events(front, filters);
        let kept = shown_events(front, filters);
        assert forall|n: u64| n != last.sequence implies #[trigger] buffer::sequence_index(
            events,
            n,
        ) == (if buffer::holds(front, n) {
            buffer::sequence_index(front, n)
        } else {
            events.len() as int
        }) by {
            buffer::lemma_sequence_index(events, n);
            buffer::lemma_sequence_index(front, n);
            if buffer::holds(front, n) {
                let k = buffer::sequence_index(front, n);
                assert(events[k].sequence == n);
                buffer::lemma_sequence_at(events, k);
            } else if buffer::holds(events, n) {
                let k = buffer::sequence_index(events, n);
                assert(events[k].sequence == n);
                assert(front[k].sequence == n);
                buffer::lemma_sequence_at(front, k);
            }
        }
        buffer::lemma_sequence_at(events, events.len() - 1);
        assert forall|i: int| 0 <= i < kept.len() implies (#[trigger] kept[i]).sequence
            < last.sequence by {
            let n = kept[i].sequence;
            assert(buffer::holds(front, n));
            buffer::lemma_sequence_index(front, n);
            let k = buffer::sequence_index(front, n);
            assert(events[k].sequence < events[events.len() - 1].sequence);
            assert(front[k].sequence == n);
        }
        assert forall|i: int| 0 <= i < shown.len() implies buffer::holds(
            events,
            (#[trigger] shown[i]).sequence,
        ) && events[buffer::sequence_index(events, shown[i].sequence)] == shown[i] by {
            if i < kept.len() {
                assert(shown[i] == kept[i]);
                assert(buffer::holds(front, kept[i].sequence));
                buffer::lemma_sequence_index(front, kept[i].sequence);
                let k = buffer::sequence_index(front, kept[i].sequence);
                assert(front[k] == kept[i]);
                assert(events[k] == front[k]);
            }
        }
        let numbers = sequences(shown);
        let kept_numbers = sequences(kept);
        assert forall|i: int, j: int| 0 <= i < j < numbers.len() implies numbers[i]
            < numbers[j] by {
            if j < kept.len() {
                assert(kept_numbers[i] < kept_numbers[j]);
            } else {
                assert(kept[i].sequence < last.sequence);
            }
        }
        assert forall|n: u64| #[trigger] numbers.contains(n) <==> is_shown(events, filters, n) by {
            assert(kept_numbers.contains(n) <==> is_shown(front, filters, n));
            if n == last.sequence {
                if filters.matches(last) {
                    assert(numbers[kept.len() as int] == n);
                } else if numbers.contains(n) {
                    let k = choose|k: int| 0 <= k < numbers.len() && numbers[k] == n;
                    assert(kept[k].sequence < last.sequence);
                }
            } else {
                if numbers.contains(n) {
                    let k = choose|k: int| 0 <= k < numbers.len() && numbers[k] == n;
                    assert(kept_numbers[k] == n);
                    assert(kept_numbers.contains(n));
                }
                if kept_numbers.contains(n) {
                    let k = choose|k: int| 0 <= k < kept_numbers.len() && kept_numbers[k] == n;
                    assert(numbers[k] == n);
                }
                buffer::lemma_sequence_index(front, n);
                buffer::lemma_sequence_index(events, n);
            }
        }
    } else {
        assert forall|n: u64| #[trigger]
            sequences(shown).contains(n) <==> is_shown(events, filters, n) by {}
    }
}

/// An inactive filter shows every event.
pub proof fn lemma_inactive_shows_all(events: Seq<EventView>, filters: FilterView)
    requires
        !filters.active(),
    ensures
        shown_events(events, filters) == events,
    decreases events.len(),
{
    if events.len() > 0 {
        lemma_inactive_shows_all(events.drop_last(), filters);
        filter::law_inactive_filter_shows_all(filters, events.last());
        assert(events.drop_last().push(events.last()) =~= events);
    }
}

/// Of no events none are shown.
pub proof fn lemma_empty_cache(events: Seq<EventView>, filters: FilterView)
    requires
        events.len() == 0,
    ensures
        cache_for(events, filters) == Seq::<u64>::empty(),
{
    assert(cache_for(events, filters) =~= Seq::<u64>::empty());
}

/// What the kept numbers have to be for a change to be applied to them: in
/// order, and below an appended number.
pub open spec fn cache_ready(cache: Seq<u64>, change: ChangeView) -> bool {
    &&& increasing(cache)
    &&& match change.appended {
        Some(sequence) => forall|i: int| 0 <= i < cache.len() ==> (#[trigger] cache[i]) < sequence,
        None => true,
    }
}

/// The kept numbers are ready for what the buffer tells of its next change.
pub proof fn lemma_cache_ready(
    before: Seq<EventView>,
    after: Seq<EventView>,
    change: ChangeView,
    filters: FilterView,
)
    requires
        buffer::in_sequence(before),
        keep::accounts(before, after, change),
    ensures
        cache_ready(cache_for(before, filters), change),
{
    lemma_shown_events(before, filters);
    let cache = cache_for(before, filters);
    match change.appended {
        Some(sequence) => {
            assert forall|i: int| 0 <= i < cache.len() implies (#[trigger] cache[i])
                < sequence by {
                let n = cache[i];
                assert(cache.contains(n));
                assert(is_shown(before, filters, n));
                buffer::lemma_sequence_index(before, n);
                assert(before[buffer::sequence_index(before, n)].sequence < sequence);
            }
        },
        None => {},
    }
}

/// The kept numbers follow the buffer: after every change they are what a scan
/// of all events with the filter finds.
pub proof fn law_cache_follows_buffer(
    before: Seq<EventView>,
    after: Seq<EventView>,
    change: ChangeView,
    filters: FilterView,
)
    requires
        buffer::in_sequence(before),
        buffer::in_sequence(after),
        keep::accounts(before, after, change),
    ensures
        cache_after(cache_for(before, filters), change, after, filters) == cache_for(
            after,
            filters,
        ),
{
    if filters.active() {
        let cache = cache_for(before, filters);
        lemma_shown_events(before, filters);
        lemma_shown_events(after, filters);
        lemma_cache_ready(before, after, change, filters);
        lemma_all_removed(cache, change.removed);
        let kept = all_removed(cache, change.removed);
        let longer = appended(kept, after, filters, change.appended);
        assert(increasing(longer)) by {
            match change.appended {
                Some(sequence) => {
                    assert forall|i: int, j: int| 0 <= i < j < longer.len() implies longer[i]
                        < longer[j] by {
                        if j < kept.len() {
                            assert(kept[i] < kept[j]);
                        } else {
                            assert(kept.contains(kept[i]));
                            assert(cache.contains(kept[i]));
                            let k = choose|k: int| 0 <= k < cache.len() && cache[k] == kept[i];
                            assert(cache[k] < sequence);
                        }
                    }
                },
                None => {},
            }
        }
        lemma_all_refreshed(longer, after, filters, change.updated);
        let result = cache_after(cache, change, after, filters);
        let expected = cache_for(after, filters);
        assert forall|n: u64| #[trigger] result.contains(n) <==> expected.contains(n) by {
            assert(expected.contains(n) <==> is_shown(after, filters, n));
            assert(result.contains(n) <==> if change.updated.contains(n) {
                is_shown(after, filters, n)
            } else {
                longer.contains(n)
            });
            assert(kept.contains(n) <==> cache.contains(n) && !change.removed.contains(n));
            assert(cache.contains(n) <==> is_shown(before, filters, n));
            buffer::lemma_sequence_index(before, n);
            buffer::lemma_sequence_index(after, n);
            if !change.updated.contains(n) {
                if change.appended == Some(n) {
                    if buffer::holds(before, n) {
                        assert(before[buffer::sequence_index(before, n)].sequence < n);
                    }
                    assert(!kept.contains(n));
                    if is_shown(after, filters, n) {
                        assert(longer[kept.len() as int] == n);
                    } else {
                        assert(longer == kept);
                    }
                } else {
                    assert(longer.contains(n) <==> kept.contains(n)) by {
                        if kept.contains(n) {
                            let k = choose|k: int| 0 <= k < kept.len() && kept[k] == n;
                            assert(longer[k] == n);
                        }
                        if longer.contains(n) {
                            let k = choose|k: int| 0 <= k < longer.len() && longer[k] == n;
                            assert(kept[k] == n);
                        }
                    }
                    if is_shown(before, filters, n) && !change.removed.contains(n) {
                        let k = buffer::sequence_index(before, n);
                        assert(before[k].sequence == n);
                        assert(buffer::holds(after, n));
                        assert(after[buffer::sequence_index(after, n)].sequence == n);
                    }
                    if is_shown(after, filters, n) {
                        let k = buffer::sequence_index(after, n);
                        assert(after[k].sequence == n);
                    }
                }
            }
        }
        lemma_same_numbers(result, expected);
    }
}

// ---------------------------------------------------------------------------
// The view
// ---------------------------------------------------------------------------

/// The numbers of the shown events, the selection, and what is on the screen.
#[derive(Debug)]
pub struct VisibleLogView {
    pub cache: VecDeque<u64>,
    pub selected: usize,
    pub viewport_start: usize,
    pub follow: bool,
    pub paused_backlog: usize,
}

/// What a view is.
pub struct VisibleView {
    pub cache: Seq<u64>,
    pub selected: int,
    pub viewport_start: int,
    pub follow: bool,
    pub backlog: int,
}

impl View for VisibleLogView {
    type V = VisibleView;

    open spec fn view(&self) -> VisibleView {
        VisibleView {
            cache: self.cache@,
            selected: self.selected as int,
            viewport_start: self.viewport_start as int,
            follow: self.follow,
            backlog: self.paused_backlog as int,
        }
    }
}

/// The smaller of two numbers.
pub open spec fn min(a: int, b: int) -> int {
    if a < b {
        a
    } else {
        b
    }
}

/// The part of a number above another.
pub open spec fn above(a: int, b: int) -> int {
    if a > b {
        a - b
    } else {
        0
    }
}

impl VisibleView {
    /// The view before the first line.
    pub open spec fn start() -> VisibleView {
        VisibleView {
            cache: Seq::empty(),
            selected: 0,
            viewport_start: 0,
            follow: true,
            backlog: 0,
        }
    }

    /// Whether the kept numbers are those of the shown events.
    pub open spec fn synced(self, events: Seq<EventView>, filters: FilterView) -> bool {
        self.cache == cache_for(events, filters)
    }

    /// How many events are shown.
    pub open spec fn count(self, events: Seq<EventView>, filters: FilterView) -> int {
        if filters.active() {
            self.cache.len() as int
        } else {
            events.len() as int
        }
    }

    /// The shown event at an index.
    pub open spec fn at(self, events: Seq<EventView>, filters: FilterView, index: int) -> Option<
        EventView,
    > {
        if filters.active() {
            if 0 <= index < self.cache.len() && buffer::holds(events, self.cache[index]) {
                Some(events[buffer::sequence_index(events, self.cache[index])])
            } else {
                None
            }
        } else if 0 <= index < events.len() {
            Some(events[index])
        } else {
            None
        }
    }

    /// The selection within `count` events: the last one while following.
    pub open spec fn reselected(self, count: int) -> VisibleView {
        VisibleView {
            selected: if self.follow && count > 0 {
                count - 1
            } else {
                clamped(self.selected, count)
            },
            ..self
        }
    }

    /// The first row of a screen of some height: the screen holds the
    /// selection, is filled where there is enough, and its end while following.
    pub open spec fn scrolled(self, count: int, height: int) -> VisibleView {
        let last_start = above(count, height);
        let selected = min(self.selected, count - 1);
        let start = min(self.viewport_start, last_start);
        VisibleView {
            viewport_start: if height == 0 || count == 0 {
                0
            } else if self.follow {
                last_start
            } else if selected < start {
                min(selected, last_start)
            } else if selected >= start + height {
                min(above(selected, height - 1), last_start)
            } else {
                start
            },
            ..self
        }
    }

    /// The selection moved down among `count` events.
    pub open spec fn moved_down(self, count: int, amount: int) -> VisibleView {
        VisibleView { follow: false, selected: clamped(self.selected + amount, count), ..self }
    }

    /// The selection moved up.
    pub open spec fn moved_up(self, amount: int) -> VisibleView {
        VisibleView { follow: false, selected: above(self.selected, amount), ..self }
    }

    /// The next or the previous of `count` events selected, round the ends.
    pub open spec fn searched(self, count: int, forward: bool) -> VisibleView {
        let selected = min(self.selected, count - 1);
        VisibleView {
            follow: false,
            selected: if count == 0 {
                self.selected
            } else if forward {
                if selected == count - 1 {
                    0
                } else {
                    selected + 1
                }
            } else if selected == 0 {
                count - 1
            } else {
                selected - 1
            },
            ..self
        }
    }

    /// The shown events from one index up to another, with their indices.
    pub open spec fn window(
        self,
        events: Seq<EventView>,
        filters: FilterView,
        start: int,
        end: int,
    ) -> Seq<(int, EventView)>
        decreases end - start,
    {
        if end <= start {
            Seq::empty()
        } else {
            let front = self.window(events, filters, start, end - 1);
            match self.at(events, filters, end - 1) {
                Some(event) => front.push((end - 1, event)),
                None => front,
            }
        }
    }

    /// The last of `count` events selected, and followed.
    pub open spec fn at_bottom(self, count: int) -> VisibleView {
        (VisibleView { follow: true, backlog: 0, ..self }).reselected(count)
    }
}

/// The views of events with their indices.
pub open spec fn indexed_views(items: Seq<(usize, &LogEvent)>) -> Seq<(int, EventView)> {
    Seq::new(items.len(), |i: int| (items[i].0 as int, items[i].1@))
}

impl Default for VisibleLogView {
    fn default() -> (result: Self)
        ensures
            result@ == (VisibleView { follow: false, ..VisibleView::start() }),
    {
        VisibleLogView {
            cache: VecDeque::new(),
            selected: 0,
            viewport_start: 0,
            follow: false,
            paused_backlog: 0,
        }
    }
}

/// Takes a number out of an increasing list.
pub fn remove_number(cache: &mut VecDeque<u64>, sequence: u64)
    requires
        increasing(old(cache)@),
    ensures
        final(cache)@ == number_removed(old(cache)@, sequence),
        increasing(final(cache)@),
{
    let ghost before = cache@;
    proof {
        lemma_number_removed(before, sequence);
    }
    let at = number_position(cache, sequence);
    if at < cache.len() && cache[at] == sequence {
        let _ = cache.remove(at);
        proof {
            let after = before.remove(at as int);
            assert forall|i: int, j: int| 0 <= i < j < after.len() implies after[i] < after[j] by {}
            assert forall|n: u64| #[trigger] after.contains(n) <==> number_removed(
                before,
                sequence,
            ).contains(n) by {
                if after.contains(n) {
                    let k = choose|k: int| 0 <= k < after.len() && after[k] == n;
                    let m = if k < at {
                        k
                    } else {
                        k + 1
                    };
                    assert(before[m] == n);
                    assert(before.contains(n));
                    assert(before[at as int] == sequence);
                }
                if before.contains(n) && n != sequence {
                    let m = choose|m: int| 0 <= m < before.len() && before[m] == n;
                    let k = if m < at {
                        m
                    } else {
                        m - 1
                    };
                    assert(after[k] == n);
                }
            }
            lemma_same_numbers(after, number_removed(before, sequence));
        }
    } else {
        proof {
            assert(!before.contains(sequence)) by {
                if before.contains(sequence) {
                    let k = choose|k: int| 0 <= k < before.len() && before[k] == sequence;
                    assert(before[k] == sequence);
                }
            }
            lemma_same_numbers(before, number_removed(before, sequence));
        }
    }
}

/// How many numbers of an increasing list are below one.
pub fn number_position(cache: &VecDeque<u64>, sequence: u64) -> (result: usize)
    requires
        increasing(cache@),
    ensures
        result <= cache@.len(),
        forall|i: int| 0 <= i < result ==> (#[trigger] cache@[i]) < sequence,
        forall|i: int| result <= i < cache@.len() ==> (#[trigger] cache@[i]) >= sequence,
{
    let mut low: usize = 0;
    let mut high: usize = cache.len();
    while low < high
        invariant
            increasing(cache@),
            low <= high <= cache@.len(),
            forall|i: int| 0 <= i < low ==> (#[trigger] cache@[i]) < sequence,
            forall|i: int| high <= i < cache@.len() ==> (#[trigger] cache@[i]) >= sequence,
        decreases high - low,
    {
        let middle: usize = low + (high - low) / 2;
        let found = cache[middle];
        if found < sequence {
            low = middle + 1;
        } else {
            high = middle;
        }
    }
    low
}

/// Puts a number into an increasing list.
pub fn insert_number(cache: &mut VecDeque<u64>, sequence: u64)
    requires
        increasing(old(cache)@),
        !old(cache)@.contains(sequence),
    ensures
        final(cache)@ == number_inserted(old(cache)@, sequence),
        increasing(final(cache)@),
{
    let ghost before = cache@;
    proof {
        lemma_number_inserted(before, sequence);
    }
    let at = number_position(cache, sequence);
    cache.insert(at, sequence);
    proof {
        let after = before.insert(at as int, sequence);
        assert forall|i: int| at <= i < before.len() implies (#[trigger] before[i])
            > sequence by {
            if before[i] == sequence {
                assert(before.contains(sequence));
            }
        }
        assert forall|i: int, j: int| 0 <= i < j < after.len() implies after[i] < after[j] by {
            let x = if i < at {
                i
            } else {
                i - 1
            };
            let y = if j < at {
                j
            } else {
                j - 1
            };
            if i != at && j != at {
                assert(before[x] < before[y]);
            } else if i == at {
                assert(before[y] > sequence);
            } else {
                assert(before[x] < sequence);
            }
        }
        assert forall|n: u64| #[trigger] after.contains(n) <==> number_inserted(
            before,
            sequence,
        ).contains(n) by {
            if after.contains(n) && n != sequence {
                let k = choose|k: int| 0 <= k < after.len() && after[k] == n;
                let m = if k < at {
                    k
                } else {
                    k - 1
                };
                assert(before[m] == n);
            }
            if before.contains(n) {
                let m = choose|m: int| 0 <= m < before.len() && before[m] == n;
                let k = if m < at {
                    m
                } else {
                    m + 1
                };
                assert(after[k] == n);
            }
            assert(after[at as int] == sequence);
        }
        lemma_same_numbers(after, number_inserted(before, sequence));
    }
}

/// Whether the event with a sequence number is there and shown.
fn shows(buffer: &LogBuffer, filters: &LogFilter, sequence: u64) -> (result: bool)
    requires
        buffer::in_sequence(buffer@.events),
    ensures
        result == is_shown(buffer@.events, filters@, sequence),
{
    match buffer.event_by_sequence(sequence) {
        Some(event) => filters.matches(event),
        None => false,
    }
}

impl VisibleLogView {
    /// The view before the first line.
    pub fn new() -> (result: Self)
        ensures
            result@ == VisibleView::start(),
    {
        VisibleLogView {
            cache: VecDeque::new(),
            selected: 0,
            viewport_start: 0,
            follow: true,
            paused_backlog: 0,
        }
    }

    /// The index of the selected event.
    pub fn selected(&self) -> (result: usize)
        ensures
            result == self@.selected,
    {
        self.selected
    }

    /// The index of the first event on the screen.
    pub fn viewport_start(&self) -> (result: usize)
        ensures
            result == self@.viewport_start,
    {
        self.viewport_start
    }

    /// Whether the last event stays selected.
    pub fn is_following(&self) -> (result: bool)
        ensures
            result == self@.follow,
    {
        self.follow
    }

    /// How many lines came since following ended.
    pub fn paused_backlog(&self) -> (result: usize)
        ensures
            result == self@.backlog,
    {
        self.paused_backlog
    }

    /// How many events are shown.
    pub fn visible_count(&self, buffer: &LogBuffer, filters: &LogFilter) -> (result: usize)
        ensures
            result == self@.count(buffer@.events, filters@),
    {
        if filters.has_active_filters() {
            self.cache.len()
        } else {
            buffer.len()
        }
    }

    /// The shown event at an index.
    pub fn event_at<'a>(
        &'a self,
        buffer: &'a LogBuffer,
        filters: &LogFilter,
        visible_index: usize,
    ) -> (result: Option<&'a LogEvent>)
        requires
            buffer::in_sequence(buffer@.events),
        ensures
            match result {
                Some(event) => self@.at(buffer@.events, filters@, visible_index as int) == Some(
                    event@,
                ),
                None => self@.at(buffer@.events, filters@, visible_index as int) is None,
            },
    {
        if !filters.has_active_filters() {
            if visible_index < buffer.events.len() {
                return Some(&buffer.events[visible_index]);
            }
            return None;
        }
        if visible_index < self.cache.len() {
            buffer.event_by_sequence(self.cache[visible_index])
        } else {
            None
        }
    }

    /// The selected event.
    pub fn selected_event<'a>(&'a self, buffer: &'a LogBuffer, filters: &LogFilter) -> (result:
        Option<&'a LogEvent>)
        requires
            buffer::in_sequence(buffer@.events),
        ensures
            match result {
                Some(event) => self@.at(buffer@.events, filters@, self@.selected) == Some(event@),
                None => self@.at(buffer@.events, filters@, self@.selected) is None,
            },
    {
        self.event_at(buffer, filters, self.selected)
    }

    /// The shown events from an index on, with their indices.
    pub fn for_each_visible_event<'a>(
        &'a self,
        buffer: &'a LogBuffer,
        filters: &LogFilter,
        start: usize,
        limit: usize,
    ) -> (result: Vec<(usize, &'a LogEvent)>)
        requires
            buffer::in_sequence(buffer@.events),
        ensures
            indexed_views(result@) == self@.window(
                buffer@.events,
                filters@,
                start as int,
                min(start + limit, self@.count(buffer@.events, filters@)),
            ),
    {
        let count = self.visible_count(buffer, filters);
        let end: usize = {
            let wanted = start.saturating_add(limit);
            if wanted < count {
                wanted
            } else {
                count
            }
        };
        let mut result: Vec<(usize, &'a LogEvent)> = Vec::new();
        assert(indexed_views(result@) =~= Seq::<(int, EventView)>::empty());
        if end <= start {
            return result;
        }
        let mut i: usize = start;
        while i < end
            invariant
                start <= i <= end,
                buffer::in_sequence(buffer@.events),
                indexed_views(result@) == self@.window(
                    buffer@.events,
                    filters@,
                    start as int,
                    i as int,
                ),
            decreases end - i,
        {
            let ghost before = result@;
            match self.event_at(buffer, filters, i) {
                Some(event) => {
                    result.push((i, event));
                    assert(indexed_views(result@) =~= indexed_views(before).push(
                        (i as int, event@),
                    ));
                },
                None => {},
            }
            i += 1;
        }
        result
    }

    /// Keeps the selection on a screen of some height.
    pub fn sync_viewport(
        &mut self,
        buffer: &LogBuffer,
        filters: &LogFilter,
        viewport_height: usize,
    )
        ensures
            final(self)@ == old(self)@.scrolled(
                old(self)@.count(buffer@.events, filters@),
                viewport_height as int,
            ),
    {
        let visible_len = self.visible_count(buffer, filters);
        if viewport_height == 0 || visible_len == 0 {
            self.viewport_start = 0;
            return ;
        }
        let max_start = visible_len.saturating_sub(viewport_height);
        if self.follow {
            self.viewport_start = max_start;
            return ;
        }
        let selected: usize = if self.selected < visible_len - 1 {
            self.selected
        } else {
            visible_len - 1
        };
        let mut start: usize = if self.viewport_start < max_start {
            self.viewport_start
        } else {
            max_start
        };
        if selected < start {
            start = selected;
        } else if selected - start >= viewport_height {
            start = selected.saturating_sub(viewport_height - 1);
        }
        if start > max_start {
            start = max_start;
        }
        self.viewport_start = start;
    }

    /// Moves the selection down.
    pub fn move_down(&mut self, buffer: &LogBuffer, filters: &LogFilter, amount: usize)
        ensures
            final(self)@ == old(self)@.moved_down(
                old(self)@.count(buffer@.events, filters@),
                amount as int,
            ),
    {
        self.follow = false;
        let visible_len = self.visible_count(buffer, filters);
        if visible_len == 0 {
            self.selected = 0;
        } else {
            let target = self.selected.saturating_add(amount);
            self.selected = if target > visible_len - 1 {
                visible_len - 1
            } else {
                target
            };
        }
    }

    /// Moves the selection up.
    pub fn move_up(&mut self, amount: usize)
        ensures
            final(self)@ == old(self)@.moved_up(amount as int),
    {
        self.follow = false;
        self.selected = self.selected.saturating_sub(amount);
    }

    /// Selects the first event.
    pub fn jump_top(&mut self)
        ensures
            final(self)@ == (VisibleView { follow: false, selected: 0, ..old(self)@ }),
    {
        self.follow = false;
        self.selected = 0;
    }

    /// Selects the last event without following.
    pub fn move_to_last_visible(&mut self, buffer: &LogBuffer, filters: &LogFilter)
        ensures
            final(self)@ == (VisibleView {
                follow: false,
                selected: above(old(self)@.count(buffer@.events, filters@), 1),
                ..old(self)@
            }),
    {
        self.follow = false;
        self.selected = self.visible_count(buffer, filters).saturating_sub(1);
    }

    /// Begins a selection of several events at the selected one.
    pub fn start_visual_selection(&mut self, buffer: &LogBuffer, filters: &LogFilter) -> (result:
        Option<usize>)
        ensures
            ({
                let count = old(self)@.count(buffer@.events, filters@);
                if count == 0 {
                    result is None && final(self)@ == old(self)@
                } else {
                    &&& result == Some(min(old(self)@.selected, count - 1) as usize)
                    &&& final(self)@ == (VisibleView {
                        follow: false,
                        selected: min(old(self)@.selected, count - 1),
                        ..old(self)@
                    })
                }
            }),
    {
        let visible_len = self.visible_count(buffer, filters);
        if visible_len == 0 {
            return None;
        }
        self.follow = false;
        if self.selected > visible_len - 1 {
            self.selected = visible_len - 1;
        }
        Some(self.selected)
    }

    /// Selects the last event and follows.
    pub fn jump_bottom(&mut self, buffer: &LogBuffer, filters: &LogFilter)
        ensures
            final(self)@ == old(self)@.at_bottom(old(self)@.count(buffer@.events, filters@)),
    {
        self.follow = true;
        self.paused_backlog = 0;
        self.sync_selection(buffer, filters);
    }

    /// Ends following, or takes it up again at the last event.
    pub fn toggle_follow(&mut self, buffer: &LogBuffer, filters: &LogFilter)
        ensures
            final(self)@ == if old(self)@.follow {
                VisibleView { follow: false, ..old(self)@ }
            } else {
                old(self)@.at_bottom(old(self)@.count(buffer@.events, filters@))
            },
    {
        if self.follow {
            self.follow = false;
        } else {
            self.jump_bottom(buffer, filters);
        }
    }

    /// Selects the next or the previous shown event while a text is searched,
    /// round the ends. Every shown event contains the text.
    pub fn move_to_search_match(&mut self, buffer: &LogBuffer, filters: &LogFilter, forward: bool)
        ensures
            final(self)@ == if filter::is_set(filters@.text) {
                old(self)@.searched(old(self)@.count(buffer@.events, filters@), forward)
            } else {
                old(self)@
            },
    {
        if !filter::opt_is_set(&filters.text) {
            return ;
        }
        self.follow = false;
        let visible_len = self.visible_count(buffer, filters);
        if visible_len == 0 {
            return ;
        }
        let selected: usize = if self.selected < visible_len - 1 {
            self.selected
        } else {
            visible_len - 1
        };
        self.selected = if forward {
            if selected == visible_len - 1 {
                0
            } else {
                selected + 1
            }
        } else if selected == 0 {
            visible_len - 1
        } else {
            selected - 1
        };
    }

    /// Takes up what a line did to the buffer.
    pub fn on_line_received(
        &mut self,
        change: &BufferChange,
        buffer: &LogBuffer,
        filters: &LogFilter,
    )
        requires
            buffer::in_sequence(buffer@.events),
            cache_ready(old(self)@.cache, change@),
        ensures
            final(self)@ == ({
                let told = VisibleView {
                    cache: cache_after(old(self)@.cache, change@, buffer@.events, filters@),
                    backlog: if old(self)@.follow {
                        old(self)@.backlog
                    } else {
                        min(old(self)@.backlog + 1, usize::MAX as int)
                    },
                    ..old(self)@
                };
                told.reselected(told.count(buffer@.events, filters@))
            }),
    {
        self.apply_buffer_change(change, buffer, filters);
        if !self.follow {
            self.paused_backlog = self.paused_backlog.saturating_add(1);
        }
        self.sync_selection(buffer, filters);
    }

    /// Takes up another filter.
    pub fn on_filters_changed(&mut self, buffer: &LogBuffer, filters: &LogFilter)
        ensures
            final(self)@ == ({
                let told = VisibleView {
                    cache: cache_for(buffer@.events, filters@),
                    ..old(self)@
                };
                told.reselected(told.count(buffer@.events, filters@))
            }),
    {
        self.rebuild_cache(buffer, filters);
        self.sync_selection(buffer, filters);
    }

    /// Keeps the selection within the shown events.
    pub fn sync_selection(&mut self, buffer: &LogBuffer, filters: &LogFilter)
        ensures
            final(self)@ == old(self)@.reselected(old(self)@.count(buffer@.events, filters@)),
    {
        let visible_len = self.visible_count(buffer, filters);
        if visible_len == 0 {
            self.selected = 0;
        } else if self.follow {
            self.selected = visible_len - 1;
        } else if self.selected > visible_len - 1 {
            self.selected = visible_len - 1;
        }
    }

    fn apply_buffer_change(
        &mut self,
        change: &BufferChange,
        buffer: &LogBuffer,
        filters: &LogFilter,
    )
        requires
            buffer::in_sequence(buffer@.events),
            cache_ready(old(self)@.cache, change@),
        ensures
            final(self)@ == (VisibleView {
                cache: cache_after(old(self)@.cache, change@, buffer@.events, filters@),
                ..old(self)@
            }),
    {
        if !filters.has_active_filters() {
            self.cache.clear();
            return ;
        }
        let ghost before = self.cache@;
        let mut i: usize = 0;
        assert(change@.removed.take(0) =~= Seq::<u64>::empty());
        while i < change.removed.len()
            invariant
                i <= change.removed@.len(),
                increasing(before),
                increasing(self.cache@),
                self.cache@ == all_removed(before, change@.removed.take(i as int)),
                self@ == (VisibleView { cache: self.cache@, ..old(self)@ }),
            decreases change.removed@.len() - i,
        {
            remove_number(&mut self.cache, change.removed[i]);
            i += 1;
            assert(change@.removed.take(i as int).drop_last() =~= change@.removed.take(i - 1));
        }
        assert(change@.removed.take(i as int) =~= change@.removed);
        let ghost kept = self.cache@;
        proof {
            lemma_all_removed(before, change@.removed);
        }
        match change.appended {
            Some(sequence) => {
                if shows(buffer, filters, sequence) {
                    self.cache.push_back(sequence);
                    assert forall|x: int, y: int| 0 <= x < y < self.cache@.len() implies self.cache@[x]
                        < self.cache@[y] by {
                        if y < kept.len() {
                            assert(kept[x] < kept[y]);
                        } else {
                            assert(kept.contains(kept[x]));
                            assert(before.contains(kept[x]));
                            let k = choose|k: int| 0 <= k < before.len() && before[k] == kept[x];
                            assert(before[k] < sequence);
                        }
                    }
                }
            },
            None => {},
        }
        let ghost longer = self.cache@;
        let mut k: usize = 0;
        assert(change@.updated.take(0) =~= Seq::<u64>::empty());
        while k < change.updated.len()
            invariant
                k <= change.updated@.len(),
                buffer::in_sequence(buffer@.events),
                increasing(self.cache@),
                self.cache@ == all_refreshed(
                    longer,
                    buffer@.events,
                    filters@,
                    change@.updated.take(k as int),
                ),
                self@ == (VisibleView { cache: self.cache@, ..old(self)@ }),
            decreases change.updated@.len() - k,
        {
            self.refresh_sequence(change.updated[k], buffer, filters);
            k += 1;
            assert(change@.updated.take(k as int).drop_last() =~= change@.updated.take(k - 1));
        }
        assert(change@.updated.take(k as int) =~= change@.updated);
    }

    fn rebuild_cache(&mut self, buffer: &LogBuffer, filters: &LogFilter)
        ensures
            final(self)@ == (VisibleView {
                cache: cache_for(buffer@.events, filters@),
                ..old(self)@
            }),
    {
        self.cache.clear();
        if !filters.has_active_filters() {
            return ;
        }
        let ghost all = buffer@.events;
        let mut i: usize = 0;
        assert(self.cache@ =~= sequences(shown_events(all.take(0), filters@)));
        while i < buffer.events.len()
            invariant
                i <= buffer.events@.len(),
                all == text::views(buffer.events@),
                self.cache@ == sequences(shown_events(all.take(i as int), filters@)),
                self@ == (VisibleView { cache: self.cache@, ..old(self)@ }),
            decreases buffer.events@.len() - i,
        {
            assert(all.take(i + 1).drop_last() =~= all.take(i as int));
            let ghost before = shown_events(all.take(i as int), filters@);
            if filters.matches(&buffer.events[i]) {
                self.cache.push_back(buffer.events[i].sequence);
                assert(sequences(before.push(all[i as int])) =~= sequences(before).push(
                    all[i as int].sequence,
                ));
            }
            i += 1;
        }
        assert(all.take(i as int) =~= all);
    }

    fn refresh_sequence(&mut self, sequence: u64, buffer: &LogBuffer, filters: &LogFilter)
        requires
            buffer::in_sequence(buffer@.events),
            increasing(old(self).cache@),
        ensures
            final(self)@ == (VisibleView {
                cache: refreshed(old(self).cache@, buffer@.events, filters@, sequence),
                ..old(self)@
            }),
            increasing(final(self).cache@),
    {
        proof {
            lemma_number_removed(self.cache@, sequence);
        }
        remove_number(&mut self.cache, sequence);
        if shows(buffer, filters, sequence) {
            insert_number(&mut self.cache, sequence);
        }
    }
}

// ---------------------------------------------------------------------------
// Laws
// ---------------------------------------------------------------------------

/// While the kept numbers are those of the shown events, the view counts the
/// shown events and finds each of them at its index.
pub proof fn law_view_shows_the_shown_events(
    view: VisibleView,
    events: Seq<EventView>,
    filters: FilterView,
    index: int,
)
    requires
        buffer::in_sequence(events),
        view.synced(events, filters),
    ensures
        view.count(events, filters) == shown_events(events, filters).len(),
        view.at(events, filters, index) == if 0 <= index < shown_events(events, filters).len() {
            Some(shown_events(events, filters)[index])
        } else {
            None
        },
{
    lemma_shown_events(events, filters);
    if !filters.active() {
        lemma_inactive_shows_all(events, filters);
    } else {
        let shown = shown_events(events, filters);
        assert(view.cache.len() == shown.len());
        if 0 <= index < shown.len() {
            assert(view.cache[index] == shown[index].sequence);
        }
    }
}

/// A screen with a height holds the selected event.
pub proof fn law_screen_holds_selection(view: VisibleView, count: int, height: int)
    requires
        count > 0,
        height > 0,
        view.selected >= 0,
        view.viewport_start >= 0,
    ensures
        ({
            let reselected = view.reselected(count);
            let start = reselected.scrolled(count, height).viewport_start;
            start <= reselected.selected < start + height
        }),
        0 <= view.scrolled(count, height).viewport_start <= above(count, height),
{
}

/// Searching forward and then backward comes back to the same event, and the
/// other way round.
pub proof fn law_search_steps_are_inverse(view: VisibleView, count: int, forward: bool)
    requires
        0 <= view.selected < count,
    ensures
        view.searched(count, forward).searched(count, !forward).selected == view.selected,
        0 <= view.searched(count, forward).selected < count,
{
}

} // verus!
