//! What the buffer keeps: the order of its events, its bounds, and a full
//! account of every change.
use crate::buffer::pending::{self, PendingView};
use crate::buffer::{
    self, size, BufferView, ChangeView, CompletedView, ContextView, LastEvent,
};
use crate::buffer::{MAX_BUILD_STEPS, MAX_CONTEXTS, MAX_RETAINED_BYTES};
use crate::model::{interpret, source, EventView, ParsedLineView};
use crate::table;
use vstd::prelude::*;

verus! {

impl BufferView {
    /// Events come in sequence, below the next number, no more than there is
    /// room for.
    pub open spec fn ordered(self) -> bool {
        &&& 0 <= self.capacity <= usize::MAX
        &&& 0 <= self.next <= u64::MAX
        &&& buffer::in_sequence(self.events)
        &&& forall|i: int| 0 <= i < self.events.len() ==> (#[trigger] self.events[i]).sequence
            < self.next
        &&& self.events.len() <= self.capacity
    }

    /// What is remembered of sources is bounded, and nothing of it is double.
    pub open spec fn remembered(self) -> bool {
        &&& table::distinct(self.pending)
        &&& table::distinct(self.last)
        &&& table::distinct(self.active)
        &&& table::distinct(self.steps)
        &&& self.last.len() <= MAX_CONTEXTS
        &&& self.active.len() <= MAX_CONTEXTS
        &&& self.steps.len() <= MAX_BUILD_STEPS
        &&& self.completed.len() <= self.block_limit()
        &&& forall|i: int|
            0 <= i < self.pending.len() ==> table::has(self.last, (#[trigger] self.pending[i]).0)
                && self.pending[i].1.bounded()
    }

    /// The events fit into the bytes that are kept.
    pub open spec fn fits(self) -> bool {
        self.capacity == usize::MAX || size::total_size(self.events) <= MAX_RETAINED_BYTES
    }

    /// Whether the context can be remembered.
    pub open spec fn has_room(self) -> bool {
        table::has(self.last, self.context) || self.last.len() < MAX_CONTEXTS
    }

    /// What holds of a buffer between lines.
    pub open spec fn valid(self) -> bool {
        self.ordered() && self.remembered() && self.fits()
    }
}

/// Whether a change tells how some events became others: which came, which
/// left, and which of those that stayed may differ.
pub open spec fn accounts(
    before: Seq<EventView>,
    after: Seq<EventView>,
    change: ChangeView,
) -> bool {
    &&& forall|i: int|
        0 <= i < after.len() ==> change.appended == Some((#[trigger] after[i]).sequence) || (
        buffer::holds(before, after[i].sequence) && (change.updated.contains(after[i].sequence)
            || before[buffer::sequence_index(before, after[i].sequence)] == after[i]))
    &&& forall|i: int|
        0 <= i < before.len() ==> buffer::holds(after, (#[trigger] before[i]).sequence)
            || change.removed.contains(before[i].sequence)
    &&& forall|sequence: u64| #[trigger]
        change.removed.contains(sequence) ==> !buffer::holds(after, sequence) && (buffer::holds(
            before,
            sequence,
        ) || change.appended == Some(sequence))
    &&& match change.appended {
        Some(sequence) => forall|i: int|
            0 <= i < before.len() ==> (#[trigger] before[i]).sequence < sequence,
        None => true,
    }
    &&& match change.appended {
        Some(sequence) => buffer::holds(after, sequence) || change.removed.contains(sequence),
        None => true,
    }
}

proof fn lemma_holds_at(events: Seq<EventView>, i: int)
    requires
        0 <= i < events.len(),
    ensures
        buffer::holds(events, events[i].sequence),
{
    buffer::lemma_sequence_index(events, events[i].sequence);
}

/// A change that tells of nothing accounts for events that stayed.
pub proof fn lemma_unchanged_accounts(events: Seq<EventView>, change: ChangeView)
    requires
        buffer::in_sequence(events),
        change.appended is None,
        change.removed.len() == 0,
    ensures
        accounts(events, events, change),
{
    assert forall|i: int| 0 <= i < events.len() implies buffer::holds(
        events,
        (#[trigger] events[i]).sequence,
    ) && events[buffer::sequence_index(events, events[i].sequence)] == events[i] by {
        lemma_holds_at(events, i);
        buffer::lemma_sequence_at(events, i);
    }
}

/// Taking an event out and telling of it keeps the account.
pub proof fn lemma_accounts_remove(
    before: Seq<EventView>,
    events: Seq<EventView>,
    change: ChangeView,
    index: int,
)
    requires
        accounts(before, events, change),
        buffer::in_sequence(events),
        0 <= index < events.len(),
    ensures
        buffer::in_sequence(events.remove(index)),
        accounts(
            before,
            events.remove(index),
            ChangeView { removed: change.removed.push(events[index].sequence), ..change },
        ),
{
    let after = events.remove(index);
    let gone = events[index].sequence;
    let told = ChangeView { removed: change.removed.push(gone), ..change };
    assert forall|i: int, j: int| 0 <= i < j < after.len() implies (#[trigger] after[i]).sequence < (
    #[trigger] after[j]).sequence by {}
    assert forall|i: int| 0 <= i < after.len() implies told.appended == Some(
        (#[trigger] after[i]).sequence,
    ) || (buffer::holds(before, after[i].sequence) && (told.updated.contains(after[i].sequence)
        || before[buffer::sequence_index(before, after[i].sequence)] == after[i])) by {
        let k = if i < index {
            i
        } else {
            i + 1
        };
        assert(after[i] == events[k]);
    }
    assert forall|sequence: u64| sequence != gone implies buffer::holds(events, sequence)
        == #[trigger] buffer::holds(after, sequence) by {
        buffer::lemma_sequence_index(events, sequence);
        buffer::lemma_sequence_index(after, sequence);
        if buffer::holds(events, sequence) {
            let k = buffer::sequence_index(events, sequence);
            let moved = if k < index {
                k
            } else {
                k - 1
            };
            assert(after[moved] == events[k]);
            lemma_holds_at(after, moved);
        }
        if buffer::holds(after, sequence) {
            let k = buffer::sequence_index(after, sequence);
            lemma_holds_at(events, if k < index {
                k
            } else {
                k + 1
            });
        }
    }
    assert(!buffer::holds(after, gone)) by {
        buffer::lemma_sequence_index(after, gone);
        if buffer::holds(after, gone) {
            let k = buffer::sequence_index(after, gone);
            assert(after[k].sequence == gone);
        }
    }
    assert(told.removed.contains(gone)) by {
        assert(told.removed[change.removed.len() as int] == gone);
    }
    assert forall|sequence: u64| change.removed.contains(sequence) implies #[trigger]
        told.removed.contains(sequence) by {
        let k = choose|k: int| 0 <= k < change.removed.len() && change.removed[k] == sequence;
        assert(told.removed[k] == sequence);
    }
    assert forall|i: int| 0 <= i < before.len() implies buffer::holds(
        after,
        (#[trigger] before[i]).sequence,
    ) || told.removed.contains(before[i].sequence) by {
        let sequence = before[i].sequence;
        if sequence != gone && !change.removed.contains(sequence) {
            assert(buffer::holds(events, sequence));
        }
    }
    assert forall|sequence: u64| #[trigger] told.removed.contains(sequence) implies !buffer::holds(
        after,
        sequence,
    ) && (buffer::holds(before, sequence) || told.appended == Some(sequence)) by {
        if sequence == gone {
            assert(told.appended == Some(events[index].sequence) || buffer::holds(before, gone));
        } else {
            let k = choose|k: int| 0 <= k < told.removed.len() && told.removed[k] == sequence;
            assert(change.removed[k] == sequence);
            assert(change.removed.contains(sequence));
        }
    }
    match told.appended {
        Some(sequence) => {
            if sequence != gone && !change.removed.contains(sequence) {
                assert(buffer::holds(events, sequence));
            }
        },
        None => {},
    }
}

/// Changing an event and telling of it keeps the account.
pub proof fn lemma_accounts_update(
    before: Seq<EventView>,
    events: Seq<EventView>,
    change: ChangeView,
    index: int,
    event: EventView,
)
    requires
        accounts(before, events, change),
        buffer::in_sequence(events),
        0 <= index < events.len(),
        event.sequence == events[index].sequence,
    ensures
        buffer::in_sequence(events.update(index, event)),
        accounts(
            before,
            events.update(index, event),
            ChangeView { updated: change.updated.push(event.sequence), ..change },
        ),
{
    let after = events.update(index, event);
    let told = ChangeView { updated: change.updated.push(event.sequence), ..change };
    assert forall|i: int| 0 <= i < after.len() implies (#[trigger] after[i]).sequence
        == events[i].sequence by {}
    assert forall|sequence: u64| buffer::holds(events, sequence) == #[trigger] buffer::holds(
        after,
        sequence,
    ) by {
        buffer::lemma_sequence_index(events, sequence);
        buffer::lemma_sequence_index(after, sequence);
        if buffer::holds(events, sequence) {
            let k = buffer::sequence_index(events, sequence);
            assert(after[k].sequence == sequence);
            lemma_holds_at(after, k);
        }
        if buffer::holds(after, sequence) {
            let k = buffer::sequence_index(after, sequence);
            assert(events[k].sequence == sequence);
            lemma_holds_at(events, k);
        }
    }
    assert(told.updated.contains(event.sequence)) by {
        assert(told.updated[change.updated.len() as int] == event.sequence);
    }
    assert forall|sequence: u64| change.updated.contains(sequence) implies #[trigger]
        told.updated.contains(sequence) by {
        let k = choose|k: int| 0 <= k < change.updated.len() && change.updated[k] == sequence;
        assert(told.updated[k] == sequence);
    }
    assert forall|i: int| 0 <= i < after.len() implies told.appended == Some(
        (#[trigger] after[i]).sequence,
    ) || (buffer::holds(before, after[i].sequence) && (told.updated.contains(after[i].sequence)
        || before[buffer::sequence_index(before, after[i].sequence)] == after[i])) by {
        assert(events[i].sequence == after[i].sequence);
        assert(change.appended == Some(events[i].sequence) || buffer::holds(
            before,
            events[i].sequence,
        ));
        if i != index {
            assert(after[i] == events[i]);
        }
    }
    assert forall|i: int| 0 <= i < before.len() implies buffer::holds(
        after,
        (#[trigger] before[i]).sequence,
    ) || told.removed.contains(before[i].sequence) by {
        assert(buffer::holds(events, before[i].sequence) || change.removed.contains(
            before[i].sequence,
        ));
    }
}

/// Adding an event at the end and telling of it keeps the account.
pub proof fn lemma_accounts_append(
    before: Seq<EventView>,
    events: Seq<EventView>,
    change: ChangeView,
    event: EventView,
)
    requires
        accounts(before, events, change),
        buffer::in_sequence(events),
        change.appended is None,
        forall|i: int| 0 <= i < events.len() ==> (#[trigger] events[i]).sequence < event.sequence,
        forall|i: int| 0 <= i < before.len() ==> (#[trigger] before[i]).sequence < event.sequence,
    ensures
        buffer::in_sequence(events.push(event)),
        accounts(
            before,
            events.push(event),
            ChangeView { appended: Some(event.sequence), ..change },
        ),
{
    let after = events.push(event);
    let told = ChangeView { appended: Some(event.sequence), ..change };
    assert forall|sequence: u64| sequence != event.sequence implies buffer::holds(events, sequence)
        == #[trigger] buffer::holds(after, sequence) by {
        buffer::lemma_sequence_index(events, sequence);
        buffer::lemma_sequence_index(after, sequence);
        if buffer::holds(events, sequence) {
            let k = buffer::sequence_index(events, sequence);
            assert(after[k].sequence == sequence);
            lemma_holds_at(after, k);
        }
        if buffer::holds(after, sequence) {
            let k = buffer::sequence_index(after, sequence);
            assert(after[k].sequence == sequence);
            lemma_holds_at(events, k);
        }
    }
    lemma_holds_at(after, events.len() as int);
    assert forall|i: int| 0 <= i < after.len() implies told.appended == Some(
        (#[trigger] after[i]).sequence,
    ) || (buffer::holds(before, after[i].sequence) && (told.updated.contains(after[i].sequence)
        || before[buffer::sequence_index(before, after[i].sequence)] == after[i])) by {
        if i < events.len() {
            assert(after[i] == events[i]);
        }
    }
    assert forall|i: int| 0 <= i < before.len() implies buffer::holds(
        after,
        (#[trigger] before[i]).sequence,
    ) || told.removed.contains(before[i].sequence) by {
        assert(buffer::holds(events, before[i].sequence) || change.removed.contains(
            before[i].sequence,
        ));
    }
    assert forall|sequence: u64| #[trigger] told.removed.contains(sequence) implies !buffer::holds(
        after,
        sequence,
    ) && (buffer::holds(before, sequence) || told.appended == Some(sequence)) by {
        assert(change.removed.contains(sequence));
        buffer::lemma_sequence_index(before, sequence);
        let k = buffer::sequence_index(before, sequence);
        assert(before[k].sequence == sequence);
    }
}

// ---------------------------------------------------------------------------
// Each step keeps the buffer valid
// ---------------------------------------------------------------------------

/// What is left of the pending blocks was there before.
pub proof fn lemma_pending_without(entries: Seq<(ContextView, PendingView)>, sequence: u64)
    ensures
        buffer::pending_without(entries, sequence).len() <= entries.len(),
        forall|i: int|
            0 <= i < buffer::pending_without(entries, sequence).len() ==> entries.contains(
                #[trigger] buffer::pending_without(entries, sequence)[i],
            ),
        table::distinct(entries) ==> table::distinct(buffer::pending_without(entries, sequence)),
    decreases entries.len(),
{
    if entries.len() > 0 {
        let front = entries.drop_last();
        lemma_pending_without(front, sequence);
        let kept = buffer::pending_without(front, sequence);
        let all = buffer::pending_without(entries, sequence);
        assert forall|i: int| 0 <= i < all.len() implies entries.contains(#[trigger] all[i]) by {
            if i < kept.len() {
                assert(front.contains(kept[i]));
                let j = choose|j: int| 0 <= j < front.len() && front[j] == kept[i];
                assert(entries[j] == all[i]);
            } else {
                assert(entries[entries.len() - 1] == all[i]);
            }
        }
        if table::distinct(entries) {
            assert forall|i: int, j: int| 0 <= i < j < front.len() implies (
            #[trigger] front[i]).0 != (#[trigger] front[j]).0 by {
                assert(entries[i].0 != entries[j].0);
            }
            assert forall|i: int, j: int| 0 <= i < j < all.len() implies (#[trigger] all[i]).0 != (
            #[trigger] all[j]).0 by {
                if j < kept.len() {
                    assert(kept[i].0 != kept[j].0);
                } else {
                    assert(front.contains(kept[i]));
                    let k = choose|k: int| 0 <= k < front.len() && front[k] == kept[i];
                    assert(entries[k].0 != entries[entries.len() - 1].0);
                }
            }
        }
    }
}

proof fn lemma_completed_without(blocks: Seq<CompletedView>, sequence: u64)
    ensures
        buffer::completed_without(blocks, sequence).len() <= blocks.len(),
    decreases blocks.len(),
{
    if blocks.len() > 0 {
        lemma_completed_without(blocks.drop_last(), sequence);
    }
}

/// The first event leaving keeps order and bounds, and is told of.
pub proof fn lemma_evicted(b: BufferView, before: Seq<EventView>, change: ChangeView)
    requires
        b.ordered(),
        b.remembered(),
        accounts(before, b.events, change),
    ensures
        b.evicted(change).0.ordered(),
        b.evicted(change).0.remembered(),
        accounts(before, b.evicted(change).0.events, b.evicted(change).1),
        b.events.len() > 0 ==> size::total_size(b.events) == size::total_size(
            b.evicted(change).0.events,
        ) + size::event_size(b.events[0]),
{
    if b.events.len() > 0 {
        let sequence = b.events[0].sequence;
        let next = b.evicted(change).0;
        assert(b.events.drop_first() =~= b.events.remove(0));
        lemma_accounts_remove(before, b.events, change, 0);
        size::lemma_total_split(b.events, 0);
        lemma_pending_without(b.pending, sequence);
        lemma_completed_without(b.completed, sequence);
        assert forall|i: int| 0 <= i < next.pending.len() implies table::has(
            next.last,
            (#[trigger] next.pending[i]).0,
        ) && next.pending[i].1.bounded() by {
            assert(b.pending.contains(next.pending[i]));
            let j = choose|j: int| 0 <= j < b.pending.len() && b.pending[j] == next.pending[i];
            assert(table::has(b.last, b.pending[j].0));
        }
    }
}

/// First events leaving keeps order and bounds; what stays fits.
pub proof fn lemma_trimmed(b: BufferView, before: Seq<EventView>, change: ChangeView)
    requires
        b.ordered(),
        b.remembered(),
        accounts(before, b.events, change),
    ensures
        b.trimmed(change).0.valid(),
        accounts(before, b.trimmed(change).0.events, b.trimmed(change).1),
        b.trimmed(change).0.last == b.last,
        b.trimmed(change).0.next == b.next,
        b.trimmed(change).0.capacity == b.capacity,
        b.trimmed(change).0.context == b.context,
        b.trimmed(change).0.fields == b.fields,
        b.trimmed(change).1.appended == change.appended,
    decreases b.events.len(),
{
    if b.capacity == usize::MAX || size::total_size(b.events) <= MAX_RETAINED_BYTES {
    } else if b.events.len() > 0 {
        lemma_evicted(b, before, change);
        let (next, told) = b.evicted(change);
        lemma_trimmed(next, before, told);
    }
}

/// The block that is found fits.
pub proof fn lemma_fitting_block(
    blocks: Seq<CompletedView>,
    context: ContextView,
    event: EventView,
)
    ensures
        0 <= buffer::fitting_block(blocks, context, event) <= blocks.len(),
        buffer::fitting_block(blocks, context, event) < blocks.len() ==> buffer::block_fits(
            blocks[buffer::fitting_block(blocks, context, event)],
            context,
            event,
        ),
    decreases blocks.len(),
{
    if blocks.len() > 0 && !buffer::block_fits(blocks[0], context, event) {
        lemma_fitting_block(blocks.drop_first(), context, event);
    }
}

/// Folding a completed block into the last event keeps order and bounds.
pub proof fn lemma_joined(b: BufferView, before: Seq<EventView>, change: ChangeView)
    requires
        b.ordered(),
        b.remembered(),
        accounts(before, b.events, change),
    ensures
        b.joined(change).0.ordered(),
        b.joined(change).0.remembered(),
        accounts(before, b.joined(change).0.events, b.joined(change).1),
        b.joined(change).0.last == b.last,
        b.joined(change).0.next == b.next,
        b.joined(change).0.capacity == b.capacity,
        b.joined(change).0.context == b.context,
        b.joined(change).0.fields == b.fields,
        b.joined(change).1.appended == change.appended,
{
    if b.events.len() > 0 {
        let last = b.events.len() - 1;
        let event = b.events.last();
        let at = buffer::fitting_block(b.completed, b.context, event);
        lemma_fitting_block(b.completed, b.context, event);
        if at < b.completed.len() {
            let block = b.completed[at];
            let updated = interpret::promoted(
                EventView { properties: block.properties, ..event },
                b.fields,
            );
            assert(updated.sequence == event.sequence);
            let events = b.events.update(last, updated);
            lemma_accounts_update(before, b.events, change, last, updated);
            let told = ChangeView { updated: change.updated.push(event.sequence), ..change };
            let index = buffer::sequence_index(events, block.header_sequence);
            buffer::lemma_sequence_index(events, block.header_sequence);
            assert forall|i: int| 0 <= i < events.len() implies (#[trigger] events[i]).sequence
                < b.next by {
                assert(b.events[i].sequence < b.next);
            }
            if index < events.len() {
                lemma_accounts_remove(before, events, told, index);
                let rest = events.remove(index);
                assert forall|i: int| 0 <= i < rest.len() implies (#[trigger] rest[i]).sequence
                    < b.next by {
                    if i < index {
                        assert(rest[i] == events[i]);
                    } else {
                        assert(rest[i] == events[i + 1]);
                    }
                }
            }
        }
    }
}

/// Naming the source of a line keeps the bounds.
pub proof fn lemma_resolved(b: BufferView, line: Seq<char>)
    requires
        b.remembered(),
    ensures
        b.resolved(line).0.remembered(),
        b.resolved(line).0.events == b.events,
        b.resolved(line).0.next == b.next,
        b.resolved(line).0.capacity == b.capacity,
        b.resolved(line).0.context == b.context,
        b.resolved(line).0.last == b.last,
        b.resolved(line).0.fields == b.fields,
        b.resolved(line).0.pending == b.pending,
        b.resolved(line).0.completed == b.completed,
{
    let parsed = source::compose_line(line);
    lemma_with_step(b, line, parsed);
    let (stepped, step) = b.with_step(line, parsed);
    lemma_with_active(stepped, step);
}

/// Naming the service of a build step keeps the bounds.
pub proof fn lemma_with_step(b: BufferView, line: Seq<char>, parsed: ParsedLineView)
    requires
        b.remembered(),
    ensures
        b.with_step(line, parsed).0.remembered(),
{
    match source::buildkit_step(line) {
        Some(step) => {
            let key = (b.context.stream, step.step_id);
            match step.source {
                Some(source) => {
                    let kept = if b.steps.len() >= MAX_BUILD_STEPS {
                        Seq::empty()
                    } else {
                        b.steps
                    };
                    table::law_put(kept, key, source, key);
                },
                None => {},
            }
        },
        None => {},
    }
}

/// Keeping track of the active source keeps the bounds.
pub proof fn lemma_with_active(b: BufferView, parsed: ParsedLineView)
    requires
        b.remembered(),
    ensures
        b.with_active(parsed).0.remembered(),
{
    let stream = b.context.stream;
    let kept = if b.active.len() >= MAX_CONTEXTS && !table::has(b.active, stream) {
        Seq::empty()
    } else {
        b.active
    };
    table::law_put(kept, stream, parsed.source, stream);
    table::law_without(b.active, stream, stream);
}

/// The event that a line becomes comes last, within the bounds, and is told of.
pub proof fn lemma_appended(
    b: BufferView,
    before: Seq<EventView>,
    line: Seq<char>,
    change: ChangeView,
)
    requires
        b.valid(),
        b.has_room(),
        b.capacity > 0,
        b.next < u64::MAX,
        accounts(before, b.events, change),
        change.appended is None,
        forall|i: int| 0 <= i < before.len() ==> (#[trigger] before[i]).sequence < b.next,
    ensures
        ({
            let (free, told, event) = b.taken_in(line, change);
            let added = free.with_appended(event);
            &&& event.sequence == b.next
            &&& free.next == b.next
            &&& free.context == b.context
            &&& free.capacity == b.capacity
            &&& added.ordered()
            &&& added.remembered()
            &&& table::has(added.last, b.context)
            &&& accounts(
                before,
                added.events,
                ChangeView { appended: Some(event.sequence), ..told },
            )
        }),
{
    let known = b.resolved(line).0;
    lemma_resolved(b, line);
    let (free, told, event) = b.taken_in(line, change);
    lemma_evicted(known, before, change);
    let added = free.with_appended(event);
    let last = LastEvent { sequence: event.sequence, own: true };
    lemma_accounts_append(before, free.events, told, event);
    table::law_put(free.last, b.context, last, b.context);
    assert forall|i: int| 0 <= i < added.pending.len() implies table::has(
        added.last,
        (#[trigger] added.pending[i]).0,
    ) && added.pending[i].1.bounded() by {
        table::law_put(free.last, b.context, last, free.pending[i].0);
        assert(table::has(free.last, free.pending[i].0));
    }
}

/// A line becoming an event keeps the buffer valid, and is told of.
pub proof fn lemma_with_event(
    b: BufferView,
    before: Seq<EventView>,
    line: Seq<char>,
    change: ChangeView,
)
    requires
        b.valid(),
        b.has_room(),
        b.next < u64::MAX,
        accounts(before, b.events, change),
        change.appended is None,
        forall|i: int| 0 <= i < before.len() ==> (#[trigger] before[i]).sequence < b.next,
    ensures
        b.with_event(line, change).0.valid(),
        accounts(before, b.with_event(line, change).0.events, b.with_event(line, change).1),
        b.with_event(line, change).2 is Some ==> table::has(
            b.with_event(line, change).0.last,
            b.context,
        ),
        b.with_event(line, change).0.next == b.next + 1,
        b.with_event(line, change).0.capacity == b.capacity,
{
    let (known, parsed) = b.resolved(line);
    lemma_resolved(b, line);
    if b.capacity == 0 {
    } else {
        let (free, told, event) = b.taken_in(line, change);
        lemma_evicted(known, before, change);
        let added = free.with_appended(event);
        let telling = ChangeView { appended: Some(event.sequence), ..told };
        lemma_appended(b, before, line, change);
        lemma_joined(added, before, telling);
        let (folded, folding) = added.joined(telling);
        lemma_trimmed(folded, before, folding);
    }
}

/// A block that has ended keeps the buffer valid, and is told of.
pub proof fn lemma_with_block(
    b: BufferView,
    before: Seq<EventView>,
    block: PendingView,
    change: ChangeView,
)
    requires
        b.valid(),
        accounts(before, b.events, change),
    ensures
        b.with_block(block, change).0.valid(),
        accounts(before, b.with_block(block, change).0.events, b.with_block(block, change).1),
        b.with_block(block, change).0.next == b.next,
        b.with_block(block, change).0.capacity == b.capacity,
{
    match crate::model::property::object_of(crate::text::split::join(block.lines, "\n"@)) {
        None => {},
        Some(properties) => {
            let index = buffer::sequence_index(b.events, block.target);
            buffer::lemma_sequence_index(b.events, block.target);
            let updated = interpret::promoted(
                EventView { properties, ..b.events[index] },
                b.fields,
            );
            let (told, events) = if index < b.events.len() {
                (
                    ChangeView { updated: change.updated.push(block.target), ..change },
                    b.events.update(index, updated),
                )
            } else {
                (change, b.events)
            };
            if index < b.events.len() {
                lemma_accounts_update(before, b.events, change, index, updated);
                assert forall|i: int| 0 <= i < events.len() implies (#[trigger] events[i]).sequence
                    < b.next by {
                    assert(b.events[i].sequence < b.next);
                }
            }
            let completed = match block.header {
                None => b.completed,
                Some(header) => {
                    let all = b.completed.push(
                        CompletedView {
                            context: b.context,
                            header_sequence: block.target,
                            header,
                            properties,
                        },
                    );
                    if all.len() > b.block_limit() {
                        all.skip(all.len() - b.block_limit())
                    } else {
                        all
                    }
                },
            };
            let next = BufferView { events, completed, ..b };
            assert(next.ordered());
            assert(next.remembered());
            lemma_trimmed(next, before, told);
        },
    }
}

/// An event becoming the last of the context keeps the memory bounded.
pub proof fn lemma_put_last(b: BufferView, last: LastEvent)
    requires
        b.remembered(),
        b.has_room(),
    ensures
        (BufferView { last: table::put(b.last, b.context, last), ..b }).remembered(),
        table::has(table::put(b.last, b.context, last), b.context),
{
    let after = BufferView { last: table::put(b.last, b.context, last), ..b };
    table::law_put(b.last, b.context, last, b.context);
    assert forall|i: int| 0 <= i < after.pending.len() implies table::has(
        after.last,
        (#[trigger] after.pending[i]).0,
    ) && after.pending[i].1.bounded() by {
        table::law_put(b.last, b.context, last, b.pending[i].0);
        assert(table::has(b.last, b.pending[i].0));
    }
}

/// The table of pending blocks with a block for a context that is remembered.
pub proof fn lemma_put_pending(b: BufferView, block: PendingView)
    requires
        b.remembered(),
        table::has(b.last, b.context),
        block.bounded(),
    ensures
        (BufferView { pending: table::put(b.pending, b.context, block), ..b }).remembered(),
{
    table::law_put(b.pending, b.context, block, b.context);
    table::lemma_find(b.pending, b.context);
    let after = table::put(b.pending, b.context, block);
    assert forall|i: int| 0 <= i < after.len() implies table::has(b.last, (#[trigger] after[i]).0)
        && after[i].1.bounded() by {
        if i < b.pending.len() {
            assert(table::has(b.last, b.pending[i].0));
        }
    }
}

/// The table of pending blocks without that of the context.
pub proof fn lemma_take_pending(b: BufferView)
    requires
        b.remembered(),
    ensures
        (BufferView { pending: table::without(b.pending, b.context), ..b }).remembered(),
        match table::lookup(b.pending, b.context) {
            Some(block) => block.bounded() && table::has(b.last, b.context),
            None => true,
        },
{
    table::law_without(b.pending, b.context, b.context);
    table::lemma_find(b.pending, b.context);
    let after = table::without(b.pending, b.context);
    assert forall|i: int| 0 <= i < after.len() implies table::has(b.last, (#[trigger] after[i]).0)
        && after[i].1.bounded() by {
        let k = if !table::has(b.pending, b.context) || i < table::find(b.pending, b.context) {
            i
        } else {
            i + 1
        };
        assert(after[i] == b.pending[k]);
    }
}

/// A line offered to a pending block keeps the buffer valid, and is told of.
pub proof fn lemma_with_pending(b: BufferView, line: Seq<char>, change: ChangeView)
    requires
        b.valid(),
        change.appended is None,
        change.removed.len() == 0,
        change.updated.len() == 0,
    ensures
        b.with_pending(line, change).0.valid(),
        accounts(b.events, b.with_pending(line, change).0.events, b.with_pending(line, change).1),
        !b.with_pending(line, change).2 ==> ({
            let (next, told, _) = b.with_pending(line, change);
            &&& next.events == b.events
            &&& next.last == b.last
            &&& next.context == b.context
            &&& told.appended is None && told.removed.len() == 0 && told.updated.len() == 0
        }),
        b.with_pending(line, change).0.next == b.next,
        b.with_pending(line, change).0.capacity == b.capacity,
{
    lemma_unchanged_accounts(b.events, change);
    match table::lookup(b.pending, b.context) {
        None => {},
        Some(block) => {
            lemma_take_pending(b);
            let open = BufferView { pending: table::without(b.pending, b.context), ..b };
            let told = ChangeView { consumed_by: Some(block.target), ..change };
            lemma_unchanged_accounts(b.events, told);
            if buffer::holds(b.events, block.target) && block.takes(line) {
                pending::law_block_stays_bounded(block, line);
                let longer = block.with_line(line);
                if longer.complete() {
                    lemma_with_block(open, b.events, longer, told);
                } else {
                    lemma_put_pending(open, longer);
                }
            }
        },
    }
}

/// A recorded line keeps the buffer valid, and is told of.
pub proof fn lemma_with_record(b: BufferView, line: Seq<char>, change: ChangeView)
    requires
        b.valid(),
        b.has_room(),
        b.next < u64::MAX,
        change.appended is None,
        change.removed.len() == 0,
        change.updated.len() == 0,
    ensures
        b.with_record(line, change).0.valid(),
        accounts(b.events, b.with_record(line, change).0.events, b.with_record(line, change).1),
        b.with_record(line, change).0.next <= b.next + 1,
        b.with_record(line, change).0.capacity == b.capacity,
{
    lemma_with_pending(b, line, change);
    let (open, told, taken) = b.with_pending(line, change);
    if !taken {
        lemma_unchanged_accounts(b.events, told);
        lemma_with_event(open, b.events, line, told);
        match crate::model::structured::block_header(line) {
            None => {},
            Some(header) => match open.header_target(header) {
                Some(target) => {
                    let known = BufferView { last: open.with_target(target), ..open };
                    lemma_put_last(open, LastEvent { sequence: target, own: false });
                    table::lemma_find(open.last, open.context);
                    lemma_put_pending(known, PendingView::start(target, None));
                    let consumed = ChangeView { consumed_by: Some(target), ..told };
                    lemma_unchanged_accounts(b.events, consumed);
                },
                None => {
                    let (next, changed, sequence) = open.with_event(line, told);
                    match sequence {
                        Some(target) => {
                            lemma_context_kept(open, line, told);
                            lemma_put_pending(next, PendingView::start(target, Some(header)));
                        },
                        None => {},
                    }
                },
            },
        }
    }
}

/// An event leaves the context as it is.
pub proof fn lemma_context_kept(b: BufferView, line: Seq<char>, change: ChangeView)
    requires
        b.valid(),
        b.has_room(),
        b.next < u64::MAX,
        accounts(b.events, b.events, change),
        change.appended is None,
    ensures
        b.with_event(line, change).0.context == b.context,
{
    let (known, parsed) = b.resolved(line);
    lemma_resolved(b, line);
    if b.capacity > 0 {
        let (free, told, event) = b.taken_in(line, change);
        lemma_evicted(known, b.events, change);
        let added = free.with_appended(event);
        let telling = ChangeView { appended: Some(event.sequence), ..told };
        let (folded, folding) = added.joined(telling);
        lemma_trimmed_context(folded, folding);
    }
}

/// Events that leave change no context.
pub proof fn lemma_trimmed_context(b: BufferView, change: ChangeView)
    ensures
        b.trimmed(change).0.context == b.context,
    decreases b.events.len(),
{
    if b.capacity == usize::MAX || size::total_size(b.events) <= MAX_RETAINED_BYTES {
    } else if b.events.len() > 0 {
        let (next, told) = b.evicted(change);
        lemma_trimmed_context(next, told);
    }
}

/// Every line keeps the buffer valid: events in sequence and within the limits
/// of number and size, and bounded memory of sources.
pub proof fn law_line_keeps_buffer_valid(
    b: BufferView,
    stream: u64,
    channel: Option<Seq<char>>,
    line: Seq<char>,
)
    requires
        b.valid(),
        b.next < u64::MAX,
    ensures
        b.with_line(stream, channel, line).0.valid(),
        b.with_line(stream, channel, line).0.next <= b.next + 1,
        b.with_line(stream, channel, line).0.capacity == b.capacity,
{
    let kept = buffer::record(line);
    let (here, change) = b.in_context(BufferView::context_of(stream, channel, kept));
    lemma_in_context(b, BufferView::context_of(stream, channel, kept));
    lemma_with_record(here, kept, change);
}

/// Every change is told in full: an event that is new was appended, one that
/// is gone was removed, and one that is not told of is as it was.
pub proof fn law_line_is_accounted_for(
    b: BufferView,
    stream: u64,
    channel: Option<Seq<char>>,
    line: Seq<char>,
)
    requires
        b.valid(),
        b.next < u64::MAX,
    ensures
        accounts(
            b.events,
            b.with_line(stream, channel, line).0.events,
            b.with_line(stream, channel, line).1,
        ),
{
    let kept = buffer::record(line);
    let (here, change) = b.in_context(BufferView::context_of(stream, channel, kept));
    lemma_in_context(b, BufferView::context_of(stream, channel, kept));
    lemma_with_record(here, kept, change);
}

/// Entering a context keeps the buffer valid and makes room for it.
pub proof fn lemma_in_context(b: BufferView, context: ContextView)
    requires
        b.valid(),
    ensures
        b.in_context(context).0.valid(),
        b.in_context(context).0.has_room(),
        b.in_context(context).0.events == b.events,
{
    reveal_with_fuel(table::find, 1);
}

/// No more blocks are pending than contexts are remembered.
pub proof fn law_pending_blocks_are_bounded(b: BufferView)
    requires
        b.remembered(),
    ensures
        b.pending.len() <= b.last.len() <= MAX_CONTEXTS,
{
    let keys = b.pending.map_values(|entry: (ContextView, PendingView)| entry.0);
    let known = b.last.map_values(|entry: (ContextView, LastEvent)| entry.0);
    assert(keys.no_duplicates()) by {
        assert forall|i: int, j: int| 0 <= i < keys.len() && 0 <= j < keys.len() && i
            != j implies keys[i] != keys[j] by {
            if i < j {
                assert(b.pending[i].0 != b.pending[j].0);
            } else {
                assert(b.pending[j].0 != b.pending[i].0);
            }
        }
    }
    assert(keys.to_set().subset_of(known.to_set())) by {
        assert forall|key: ContextView| keys.to_set().contains(key) implies known.to_set().contains(
            key,
        ) by {
            let i = choose|i: int| 0 <= i < keys.len() && keys[i] == key;
            assert(b.pending[i].0 == key);
            table::lemma_find(b.last, key);
            assert(known[table::find(b.last, key)] == key);
        }
    }
    keys.unique_seq_to_set();
    vstd::seq_lib::seq_to_set_is_finite(known);
    known.lemma_cardinality_of_set();
    vstd::set_lib::lemma_len_subset(keys.to_set(), known.to_set());
}

} // verus!
