//! What one stream writes is never taken for part of what another writes.
use crate::buffer::pending::PendingView;
use crate::buffer::{self, BufferView, ChangeView, CompletedView, ContextView};
use crate::model::structured;
use crate::table;
use vstd::prelude::*;

verus! {

/// Whether the blocks of a context are those from before, or some of them.
pub open spec fn undisturbed(before: BufferView, after: BufferView, context: ContextView) -> bool {
    &&& table::distinct(after.pending)
    &&& table::lookup(after.pending, context) is Some ==> table::lookup(after.pending, context)
        == table::lookup(before.pending, context)
    &&& forall|i: int|
        0 <= i < after.completed.len() && (#[trigger] after.completed[i]).context == context
            ==> before.completed.contains(after.completed[i])
}

/// A line changes no block of another stream, source or command: a pending
/// block gets no line of it, and a completed block none of its properties.
pub proof fn law_line_leaves_other_contexts(
    b: BufferView,
    stream: u64,
    channel: Option<Seq<char>>,
    line: Seq<char>,
    other: ContextView,
)
    requires
        b.valid(),
        other != BufferView::context_of(stream, channel, buffer::record(line)),
    ensures
        undisturbed(b, b.with_line(stream, channel, line).0, other),
{
    let kept = buffer::record(line);
    let (here, change) = b.in_context(BufferView::context_of(stream, channel, kept));
    lemma_same_blocks(b, BufferView { context: here.context, ..b }, other);
    lemma_record_apart(here, kept, change, other);
    let after = here.with_record(kept, change).0;
    if here.pending.len() == 0 {
        table::lemma_find(here.pending, other);
    }
    assert forall|i: int|
        0 <= i < after.completed.len() && (#[trigger] after.completed[i]).context
            == other implies b.completed.contains(after.completed[i]) by {
        assert(here.completed.contains(after.completed[i]));
    }
}

/// A line goes to the block that is pending in its own context or to the last
/// event there; a line that names no source may go to the last event of its
/// stream, where one source alone has written to it. It goes to no other event.
pub proof fn law_line_goes_to_its_context(
    b: BufferView,
    stream: u64,
    channel: Option<Seq<char>>,
    line: Seq<char>,
)
    ensures
        ({
            let context = BufferView::context_of(stream, channel, buffer::record(line));
            match b.with_line(stream, channel, line).1.consumed_by {
                Some(target) => {
                    ||| buffer::own_event(b.last, context) == Some(target)
                    ||| context.prefix.len() == 0 && buffer::own_events(
                        b.last,
                        context.stream,
                        context.channel,
                    ) == seq![target]
                    ||| match table::lookup(b.pending, context) {
                        Some(block) => block.target == target,
                        None => false,
                    }
                },
                None => true,
            }
        }),
{
    let kept = buffer::record(line);
    let context = BufferView::context_of(stream, channel, kept);
    let (here, change) = b.in_context(context);
    let (open, told, taken) = here.with_pending(kept, change);
    match table::lookup(here.pending, context) {
        Some(block) => {
            let left = BufferView {
                pending: table::without(here.pending, context),
                ..here
            };
            if buffer::holds(here.events, block.target) && block.takes(kept)
                && block.with_line(kept).complete() {
                lemma_block_consumed(
                    left,
                    block.with_line(kept),
                    ChangeView { consumed_by: Some(block.target), ..change },
                );
            }
        },
        None => {},
    }
    if !taken {
        lemma_event_consumed(open, kept, told);
    }
}

/// A line that there is room for becomes an event or goes to one, never both.
pub proof fn law_line_is_appended_or_consumed(
    b: BufferView,
    stream: u64,
    channel: Option<Seq<char>>,
    line: Seq<char>,
)
    requires
        b.capacity > 0,
    ensures
        ({
            let change = b.with_line(stream, channel, line).1;
            change.appended is Some <==> change.consumed_by is None
        }),
{
    let kept = buffer::record(line);
    let context = BufferView::context_of(stream, channel, kept);
    let (here, change) = b.in_context(context);
    let (open, told, taken) = here.with_pending(kept, change);
    match table::lookup(here.pending, context) {
        Some(block) => {
            let left = BufferView { pending: table::without(here.pending, context), ..here };
            lemma_block_consumed(
                left,
                block.with_line(kept),
                ChangeView { consumed_by: Some(block.target), ..change },
            );
        },
        None => {},
    }
    if !taken {
        lemma_event_consumed(open, kept, told);
    }
}

proof fn lemma_same_blocks(before: BufferView, after: BufferView, context: ContextView)
    requires
        table::distinct(before.pending),
        after.pending == before.pending,
        after.completed == before.completed,
    ensures
        undisturbed(before, after, context),
{
    assert forall|i: int|
        0 <= i < after.completed.len() && (#[trigger] after.completed[i]).context
            == context implies before.completed.contains(after.completed[i]) by {
        assert(before.completed[i] == after.completed[i]);
    }
}

proof fn lemma_undisturbed_twice(
    first: BufferView,
    second: BufferView,
    third: BufferView,
    context: ContextView,
)
    requires
        undisturbed(first, second, context),
        undisturbed(second, third, context),
    ensures
        undisturbed(first, third, context),
{
    assert forall|i: int|
        0 <= i < third.completed.len() && (#[trigger] third.completed[i]).context
            == context implies first.completed.contains(third.completed[i]) by {
        assert(second.completed.contains(third.completed[i]));
        let k = choose|k: int|
            0 <= k < second.completed.len() && second.completed[k] == third.completed[i];
        assert(first.completed.contains(second.completed[k]));
    }
}

proof fn lemma_pending_filtered(
    entries: Seq<(ContextView, PendingView)>,
    sequence: u64,
    context: ContextView,
)
    requires
        table::distinct(entries),
    ensures
        table::distinct(buffer::pending_without(entries, sequence)),
        ({
            let left = buffer::pending_without(entries, sequence);
            table::lookup(left, context) is Some ==> table::lookup(left, context) == table::lookup(
                entries,
                context,
            )
        }),
{
    let left = buffer::pending_without(entries, sequence);
    crate::buffer::keep::lemma_pending_without(entries, sequence);
    table::lemma_find(left, context);
    if table::has(left, context) {
        let k = table::find(left, context);
        assert(entries.contains(left[k]));
        let i = choose|i: int| 0 <= i < entries.len() && entries[i] == left[k];
        table::lemma_find_entry(entries, i);
    }
}

proof fn lemma_completed_filtered(blocks: Seq<CompletedView>, sequence: u64)
    ensures
        forall|i: int|
            0 <= i < buffer::completed_without(blocks, sequence).len() ==> blocks.contains(
                #[trigger] buffer::completed_without(blocks, sequence)[i],
            ),
    decreases blocks.len(),
{
    if blocks.len() > 0 {
        let front = blocks.drop_last();
        lemma_completed_filtered(front, sequence);
        let left = buffer::completed_without(blocks, sequence);
        let kept = buffer::completed_without(front, sequence);
        assert forall|i: int| 0 <= i < left.len() implies blocks.contains(#[trigger] left[i]) by {
            if i < kept.len() {
                assert(front.contains(kept[i]));
                let k = choose|k: int| 0 <= k < front.len() && front[k] == kept[i];
                assert(blocks[k] == left[i]);
            } else {
                assert(blocks[blocks.len() - 1] == left[i]);
            }
        }
    }
}

proof fn lemma_evicted_apart(b: BufferView, change: ChangeView, context: ContextView)
    requires
        table::distinct(b.pending),
    ensures
        undisturbed(b, b.evicted(change).0, context),
{
    lemma_same_blocks(b, b, context);
    if b.events.len() > 0 {
        let sequence = b.events[0].sequence;
        lemma_pending_filtered(b.pending, sequence, context);
        lemma_completed_filtered(b.completed, sequence);
    }
}

proof fn lemma_trimmed_apart(b: BufferView, change: ChangeView, context: ContextView)
    requires
        table::distinct(b.pending),
    ensures
        undisturbed(b, b.trimmed(change).0, context),
    decreases b.events.len(),
{
    lemma_same_blocks(b, b, context);
    if b.capacity == usize::MAX || crate::buffer::size::total_size(b.events)
        <= buffer::MAX_RETAINED_BYTES || b.events.len() == 0 {
    } else {
        let (next, told) = b.evicted(change);
        lemma_evicted_apart(b, change, context);
        lemma_trimmed_apart(next, told, context);
        lemma_undisturbed_twice(b, next, next.trimmed(told).0, context);
    }
}

proof fn lemma_joined_apart(b: BufferView, change: ChangeView, context: ContextView)
    requires
        table::distinct(b.pending),
    ensures
        undisturbed(b, b.joined(change).0, context),
{
    let after = b.joined(change).0;
    lemma_same_blocks(b, b, context);
    if b.events.len() > 0 {
        let at = buffer::fitting_block(b.completed, b.context, b.events.last());
        crate::buffer::keep::lemma_fitting_block(b.completed, b.context, b.events.last());
        if at < b.completed.len() {
            assert(after.completed == b.completed.remove(at));
            assert forall|i: int|
                0 <= i < after.completed.len() && (#[trigger] after.completed[i]).context
                    == context implies b.completed.contains(after.completed[i]) by {
                let k = if i < at {
                    i
                } else {
                    i + 1
                };
                assert(b.completed[k] == after.completed[i]);
            }
        }
    }
}

proof fn lemma_event_apart(
    b: BufferView,
    line: Seq<char>,
    change: ChangeView,
    context: ContextView,
)
    requires
        table::distinct(b.pending),
    ensures
        undisturbed(b, b.with_event(line, change).0, context),
        b.with_event(line, change).0.context == b.context,
{
    let known = b.resolved(line).0;
    lemma_same_blocks(b, known, context);
    if b.capacity != 0 {
        let (free, told, event) = b.taken_in(line, change);
        lemma_same_blocks(known, known, context);
        lemma_evicted_apart(known, change, context);
        assert(undisturbed(known, free, context));
        let added = free.with_appended(event);
        lemma_same_blocks(free, added, context);
        let noted = ChangeView { appended: Some(event.sequence), ..told };
        let (folded, folding) = added.joined(noted);
        lemma_joined_apart(added, noted, context);
        lemma_trimmed_apart(folded, folding, context);
        crate::buffer::keep::lemma_trimmed_context(folded, folding);
        let last = folded.trimmed(folding).0;
        lemma_undisturbed_twice(b, known, free, context);
        lemma_undisturbed_twice(b, free, added, context);
        lemma_undisturbed_twice(b, added, folded, context);
        lemma_undisturbed_twice(b, folded, last, context);
    }
}

proof fn lemma_block_apart(
    b: BufferView,
    block: PendingView,
    change: ChangeView,
    context: ContextView,
)
    requires
        table::distinct(b.pending),
        b.capacity >= 0,
        context != b.context,
    ensures
        undisturbed(b, b.with_block(block, change).0, context),
{
    lemma_same_blocks(b, b, context);
    match crate::model::property::object_of(crate::text::split::join(block.lines, "\n"@)) {
        None => {},
        Some(properties) => {
            let index = buffer::sequence_index(b.events, block.target);
            let (told, events) = if index < b.events.len() {
                (
                    ChangeView { updated: change.updated.push(block.target), ..change },
                    b.events.update(
                        index,
                        crate::model::interpret::promoted(
                            crate::model::EventView { properties, ..b.events[index] },
                            b.fields,
                        ),
                    ),
                )
            } else {
                (change, b.events)
            };
            let completed = match block.header {
                None => b.completed,
                Some(header) => {
                    let all = b.completed.push(
                        CompletedView {
                            context: b.context,
                            header_sequence: block.target,
                            header,
                            properties,
                        },
                    );
                    if all.len() > b.block_limit() {
                        all.skip(all.len() - b.block_limit())
                    } else {
                        all
                    }
                },
            };
            let next = BufferView { events, completed, ..b };
            assert forall|i: int|
                0 <= i < completed.len() && (#[trigger] completed[i]).context
                    == context implies b.completed.contains(completed[i]) by {
                let skipped = if block.header is Some && b.completed.len() + 1 > b.block_limit() {
                    b.completed.len() + 1 - b.block_limit()
                } else {
                    0
                };
                if i + skipped < b.completed.len() {
                    assert(b.completed[i + skipped] == completed[i]);
                } else {
                    assert(completed[i].context == b.context);
                }
            }
            lemma_trimmed_apart(next, told, context);
            lemma_undisturbed_twice(b, next, next.trimmed(told).0, context);
        },
    }
}

proof fn lemma_record_apart(
    b: BufferView,
    line: Seq<char>,
    change: ChangeView,
    context: ContextView,
)
    requires
        table::distinct(b.pending),
        b.capacity >= 0,
        context != b.context,
    ensures
        undisturbed(b, b.with_record(line, change).0, context),
{
    let (open, told, taken) = b.with_pending(line, change);
    let left = BufferView { pending: table::without(b.pending, b.context), ..b };
    table::law_without(b.pending, b.context, context);
    lemma_same_blocks(b, b, context);
    lemma_same_blocks(left, left, context);
    assert(undisturbed(b, left, context));
    match table::lookup(b.pending, b.context) {
        Some(block) => {
            let longer = block.with_line(line);
            if buffer::holds(b.events, block.target) && block.takes(line) {
                let noted = ChangeView { consumed_by: Some(block.target), ..change };
                if longer.complete() {
                    lemma_block_apart(left, longer, noted, context);
                    lemma_undisturbed_twice(b, left, open, context);
                } else {
                    table::law_put(left.pending, b.context, longer, context);
                    lemma_same_blocks(b, BufferView { pending: b.pending, ..open }, context);
                }
            }
        },
        None => {},
    }
    assert(undisturbed(b, open, context));
    if !taken {
        lemma_event_apart(open, line, told, context);
        let next = open.with_event(line, told).0;
        lemma_undisturbed_twice(b, open, next, context);
        match structured::block_header(line) {
            None => {},
            Some(header) => match open.header_target(header) {
                Some(target) => {
                    table::law_put(
                        open.pending,
                        b.context,
                        PendingView::start(target, None),
                        context,
                    );
                },
                None => match open.with_event(line, told).2 {
                    Some(target) => {
                        table::law_put(
                            next.pending,
                            b.context,
                            PendingView::start(target, Some(header)),
                            context,
                        );
                    },
                    None => {},
                },
            },
        }
    }
}

proof fn lemma_trimmed_consumed(b: BufferView, change: ChangeView)
    ensures
        b.trimmed(change).1.consumed_by == change.consumed_by,
        b.trimmed(change).1.appended == change.appended,
    decreases b.events.len(),
{
    if b.capacity == usize::MAX || crate::buffer::size::total_size(b.events)
        <= buffer::MAX_RETAINED_BYTES || b.events.len() == 0 {
    } else {
        let (next, told) = b.evicted(change);
        lemma_trimmed_consumed(next, told);
    }
}

proof fn lemma_block_consumed(b: BufferView, block: PendingView, change: ChangeView)
    ensures
        b.with_block(block, change).1.consumed_by == change.consumed_by,
        b.with_block(block, change).1.appended == change.appended,
{
    assert forall|other: BufferView, told: ChangeView|
        (#[trigger] other.trimmed(told)).1.consumed_by == told.consumed_by && other.trimmed(
            told,
        ).1.appended == told.appended by {
        lemma_trimmed_consumed(other, told);
    }
}

proof fn lemma_event_consumed(b: BufferView, line: Seq<char>, change: ChangeView)
    ensures
        b.with_event(line, change).1.consumed_by == change.consumed_by,
        b.capacity > 0 ==> b.with_event(line, change).1.appended is Some,
{
    assert forall|other: BufferView, told: ChangeView|
        (#[trigger] other.trimmed(told)).1.consumed_by == told.consumed_by && other.trimmed(
            told,
        ).1.appended == told.appended by {
        lemma_trimmed_consumed(other, told);
    }
}

} // verus!
