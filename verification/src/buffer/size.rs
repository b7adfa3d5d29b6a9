//! How much memory events take up.
use crate::model::{EventView, LogEvent, LogProperty, PropertyView};
use crate::text;
use crate::text::bytes::str_len;
use vstd::prelude::*;

verus! {

/// The bytes of one property: its own and those of its key and its value.
pub open spec fn property_size(property: PropertyView) -> nat {
    vstd::layout::size_of::<LogProperty>() + text::bytes::byte_len(property.key)
        + text::bytes::byte_len(property.value.display())
}

/// The bytes of some properties.
pub open spec fn properties_size(properties: Seq<PropertyView>) -> nat
    decreases properties.len(),
{
    if properties.len() == 0 {
        0
    } else {
        properties_size(properties.drop_last()) + property_size(properties.last())
    }
}

/// The bytes of an event: its own and those of the text it holds.
pub open spec fn full_size(event: EventView) -> nat {
    vstd::layout::size_of::<LogEvent>() + text::bytes::byte_len(event.raw) + text::bytes::byte_len(
        event.message,
    ) + text::bytes::byte_len(event.source) + (match event.timestamp {
        Some(timestamp) => text::bytes::byte_len(timestamp),
        None => 0,
    }) + properties_size(event.properties)
}

/// The bytes of an event, as far as an address can count.
pub open spec fn event_size(event: EventView) -> nat {
    if full_size(event) <= usize::MAX {
        full_size(event)
    } else {
        usize::MAX as nat
    }
}

/// The bytes of some events.
pub open spec fn total_size(events: Seq<EventView>) -> nat
    decreases events.len(),
{
    if events.len() == 0 {
        0
    } else {
        total_size(events.drop_last()) + event_size(events.last())
    }
}

/// A total, or the largest number where it does not fit.
pub open spec fn capped(total: nat) -> nat {
    if total <= usize::MAX {
        total
    } else {
        usize::MAX as nat
    }
}

/// The bytes of an event.
pub fn event_bytes(event: &LogEvent) -> (result: usize)
    ensures
        result == event_size(event@),
{
    let mut total: usize = std::mem::size_of::<LogEvent>();
    total = total.saturating_add(str_len(event.raw.as_str()));
    total = total.saturating_add(str_len(event.message.as_str()));
    total = total.saturating_add(str_len(event.source.as_str()));
    match &event.timestamp {
        Some(timestamp) => {
            total = total.saturating_add(str_len(timestamp.as_str()));
        },
        None => {},
    }
    let ghost head: nat = (full_size(event@) - properties_size(event@.properties)) as nat;
    assert(total == capped(head));
    let ghost all = event@.properties;
    let mut i: usize = 0;
    assert(all.take(0) =~= Seq::<PropertyView>::empty());
    while i < event.properties.len()
        invariant
            i <= event.properties@.len(),
            all == event@.properties,
            total == capped(head + properties_size(all.take(i as int))),
        decreases event.properties@.len() - i,
    {
        let property = &event.properties[i];
        total = total.saturating_add(std::mem::size_of::<LogProperty>());
        total = total.saturating_add(str_len(property.key.as_str()));
        total = total.saturating_add(str_len(property.value.as_display_str()));
        i += 1;
        assert(all.take(i as int).drop_last() =~= all.take(i - 1));
        assert(all.take(i as int).last() == property@);
    }
    assert(all.take(i as int) =~= all);
    total
}

/// Sizes of parts add up.
pub proof fn lemma_total_add(a: Seq<EventView>, b: Seq<EventView>)
    ensures
        total_size(a + b) == total_size(a) + total_size(b),
    decreases b.len(),
{
    if b.len() == 0 {
        assert(a + b =~= a);
    } else {
        assert((a + b).drop_last() =~= a + b.drop_last());
        lemma_total_add(a, b.drop_last());
    }
}

/// The size of one event.
pub proof fn lemma_total_one(event: EventView)
    ensures
        total_size(seq![event]) == event_size(event),
{
    reveal_with_fuel(total_size, 2);
    assert(seq![event].drop_last() =~= Seq::<EventView>::empty());
}

/// One event told apart from the others.
pub proof fn lemma_total_split(events: Seq<EventView>, i: int)
    requires
        0 <= i < events.len(),
    ensures
        total_size(events) == total_size(events.remove(i)) + event_size(events[i]),
{
    let one = seq![events[i]];
    lemma_total_one(events[i]);
    lemma_total_add(events.take(i), one);
    lemma_total_add(events.take(i) + one, events.skip(i + 1));
    assert(events.take(i) + one + events.skip(i + 1) =~= events);
    lemma_total_add(events.take(i), events.skip(i + 1));
    assert(events.take(i) + events.skip(i + 1) =~= events.remove(i));
}

/// The size of as many events as there can be fits into a `u128`.
pub proof fn lemma_total_bound(events: Seq<EventView>)
    ensures
        total_size(events) <= events.len() * (usize::MAX as nat),
        events.len() <= usize::MAX ==> total_size(events) <= u128::MAX,
    decreases events.len(),
{
    if events.len() > 0 {
        lemma_total_bound(events.drop_last());
        let n = events.len() - 1;
        let m = usize::MAX as int;
        assert((n + 1) * m == n * m + m) by (nonlinear_arith);
    }
    if events.len() <= usize::MAX {
        let n = events.len() as int;
        let m = usize::MAX as int;
        assert(n * m <= 0xffff_ffff_ffff_ffff * 0xffff_ffff_ffff_ffff) by (nonlinear_arith)
            requires
                0 <= n <= 0xffff_ffff_ffff_ffff,
                0 <= m <= 0xffff_ffff_ffff_ffff,
        ;
    }
}

} // verus!
