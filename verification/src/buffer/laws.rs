//! What lines do to a buffer.
use crate::buffer::pending::{self, PendingView, MAX_BLOCK_BYTES, MAX_BLOCK_LINES};
use crate::buffer::{
    self, size, BufferView, ChangeView, CompletedView, ContextView, MAX_BUILD_STEPS,
    MAX_CONTEXTS, MAX_RECORD_BYTES, MAX_RETAINED_BYTES,
};
use crate::model::laws::{in_quotes, is_unmarked, is_word_of};
use crate::model::line_laws::is_name;
use crate::model::{
    clean, event, interpret, laws, line_laws, property, source, source_laws, structured,
};
use crate::model::{EventView, HeaderView, Level, ParsedLineView, PropertyView, ValueView};
use crate::table;
use crate::text;
use crate::text::bytes;
use crate::text::laws as texts;
use crate::text::laws::{is_tight, is_word};
use vstd::prelude::*;

verus! {

/// What is kept of lines and of sources is bounded: a quarter of a mebibyte of a
/// line and of a block, sixty-four mebibytes of events, and a number of lines,
/// sources and build steps.
pub proof fn law_what_is_kept_is_bounded()
    ensures
        MAX_RECORD_BYTES == 256 * 1024,
        MAX_BLOCK_BYTES == 256 * 1024,
        MAX_RETAINED_BYTES == 64 * 1024 * 1024,
        MAX_BLOCK_LINES == 1024,
        MAX_CONTEXTS == 128,
        MAX_BUILD_STEPS == 1024,
{
}

/// The context of lines on the first stream that name no source.
pub open spec fn plain_context() -> ContextView {
    ContextView { stream: 0, channel: None, prefix: Seq::empty() }
}

/// Whether a buffer can keep some events: it has no limit, or they take up no more
/// bytes than are kept.
pub open spec fn fits(b: BufferView, events: Seq<EventView>) -> bool {
    b.capacity == usize::MAX || size::total_size(events) <= MAX_RETAINED_BYTES
}

// ---------------------------------------------------------------------------
// Events
// ---------------------------------------------------------------------------

/// A line that no block takes and that begins none becomes the last event, with
/// the next number and the line as it came; the oldest event leaves where there is
/// no room.
pub proof fn law_line_becomes_the_last_event(
    b: BufferView,
    stream: u64,
    channel: Option<Seq<char>>,
    line: Seq<char>,
)
    requires
        b.capacity > 0,
        0 <= b.next <= u64::MAX,
        b.events.len() <= b.capacity,
        bytes::byte_len(line) <= MAX_RECORD_BYTES,
        structured::block_header(line) is None,
        table::lookup(b.pending, BufferView::context_of(stream, channel, line)) is None,
        b.completed.len() == 0,
        b.last.len() < MAX_CONTEXTS,
    ensures
        ({
            let (after, change) = b.with_line(stream, channel, line);
            let full = b.events.len() == b.capacity;
            let kept = if full {
                b.events.drop_first()
            } else {
                b.events
            };
            let made = new_event(b, stream, channel, line);
            fits(b, kept.push(made)) ==> {
                &&& after.events == kept.push(made)
                &&& after.next == b.next + 1
                &&& change.appended == Some(b.next as u64)
                &&& change.consumed_by is None
                &&& change.updated.len() == 0
                &&& change.removed == if full {
                    seq![b.events[0].sequence]
                } else {
                    Seq::empty()
                }
                &&& made.sequence == b.next as u64
                &&& made.raw == match channel {
                    Some(name) => seq!['['] + name + seq![']', ' '] + line,
                    None => line,
                }
            }
        }),
{
    reveal_strlit("[");
    reveal_strlit("] ");
    assert("["@ =~= seq!['[']);
    assert("] "@ =~= seq![']', ' ']);
    let context = BufferView::context_of(stream, channel, line);
    let here = b.in_context(context).0;
    let (known, parsed) = here.resolved(line);
    lemma_resolved_keeps(here, line);
    let made = new_event(b, stream, channel, line);
    lemma_event_keeps(b.next as u64, here.raw(line), parsed, here.fields);
    let kept = if b.events.len() == b.capacity {
        b.events.drop_first()
    } else {
        b.events
    };
    let (free, told, event) = here.taken_in(line, buffer::no_change());
    assert(free.completed.len() == 0) by {
        if known.events.len() == known.capacity {
            lemma_none_completed(known.completed, known.events[0].sequence);
        }
    }
    assert(event == made);
    assert(free.events == kept);
    let added = free.with_appended(event);
    assert(added.events == kept.push(made));
    let noted = ChangeView { appended: Some(event.sequence), ..told };
    assert(buffer::fitting_block(added.completed, added.context, made) == 0);
    assert(added.joined(noted) == (added, noted));
    if fits(b, kept.push(made)) {
        assert(added.trimmed(noted) == (added, noted));
        assert(told.removed =~= if b.events.len() == b.capacity {
            seq![b.events[0].sequence]
        } else {
            Seq::empty()
        });
    }
}

/// The event that a line becomes.
pub open spec fn new_event(
    b: BufferView,
    stream: u64,
    channel: Option<Seq<char>>,
    line: Seq<char>,
) -> EventView {
    let here = b.in_context(BufferView::context_of(stream, channel, line)).0;
    let parsed = here.resolved(line).1;
    interpret::promoted(
        event::event_of(b.next as u64, here.raw(line), parsed.source, parsed.message),
        b.fields,
    )
}

proof fn lemma_resolved_keeps(b: BufferView, line: Seq<char>)
    ensures
        ({
            let known = b.resolved(line).0;
            &&& known.events == b.events
            &&& known.capacity == b.capacity
            &&& known.next == b.next
            &&& known.completed == b.completed
            &&& known.pending == b.pending
            &&& known.last == b.last
            &&& known.context == b.context
            &&& known.fields == b.fields
        }),
{
}

proof fn lemma_none_completed(blocks: Seq<CompletedView>, sequence: u64)
    requires
        blocks.len() == 0,
    ensures
        buffer::completed_without(blocks, sequence).len() == 0,
{
}

proof fn lemma_event_keeps(
    sequence: u64,
    raw: Seq<char>,
    parsed: ParsedLineView,
    fields: Seq<Seq<char>>,
)
    ensures
        ({
            let made = interpret::promoted(
                event::event_of(sequence, raw, parsed.source, parsed.message),
                fields,
            );
            &&& made.sequence == sequence
            &&& made.raw == raw
        }),
{
}

/// A line longer than what is kept of one is cut after the last character that
/// fits, and says so; any other line is kept as it is.
pub proof fn law_long_lines_are_cut(line: Seq<char>)
    ensures
        bytes::byte_len(line) <= MAX_RECORD_BYTES ==> buffer::record(line) == line,
        bytes::byte_len(line) > MAX_RECORD_BYTES ==> exists|n: int|
            0 <= n < line.len() && bytes::byte_len(#[trigger] line.take(n)) <= MAX_RECORD_BYTES
                && bytes::byte_len(line.take(n + 1)) > MAX_RECORD_BYTES && buffer::record(line)
                == line.take(n) + " [loggle: record truncated]"@,
{
    if bytes::byte_len(line) > MAX_RECORD_BYTES {
        let n = lemma_cut(line, line.len() as int);
        bytes::lemma_fit(line, MAX_RECORD_BYTES as nat, n);
        assert(bytes::byte_len(line.take(n)) <= MAX_RECORD_BYTES);
    }
}

proof fn lemma_cut(line: Seq<char>, end: int) -> (n: int)
    requires
        0 <= end <= line.len(),
        bytes::byte_len(line.take(end)) > MAX_RECORD_BYTES || end == line.len(),
        bytes::byte_len(line) > MAX_RECORD_BYTES,
    ensures
        0 <= n < line.len(),
        bytes::byte_len(line.take(n)) <= MAX_RECORD_BYTES,
        bytes::byte_len(line.take(n + 1)) > MAX_RECORD_BYTES,
    decreases end,
{
    if end == line.len() {
        assert(line.take(end) =~= line);
    }
    bytes::lemma_byte_len_bounds(line.take(end));
    if bytes::byte_len(line.take(end - 1)) <= MAX_RECORD_BYTES {
        end - 1
    } else {
        lemma_cut(line, end - 1)
    }
}

/// The events that leave for want of bytes are the oldest ones, no more of them
/// than have to; a buffer without a limit keeps all.
pub proof fn law_oldest_events_make_room(b: BufferView, change: ChangeView)
    ensures
        ({
            let after = b.trimmed(change).0;
            let gone = b.events.len() - after.events.len();
            &&& 0 <= gone
            &&& after.events == b.events.skip(gone)
            &&& b.capacity == usize::MAX ==> gone == 0
            &&& b.capacity != usize::MAX ==> size::total_size(after.events) <= MAX_RETAINED_BYTES
            &&& gone > 0 ==> size::total_size(b.events.skip(gone - 1)) > MAX_RETAINED_BYTES
            &&& b.trimmed(change).1.removed.len() == change.removed.len() + gone
        }),
    decreases b.events.len(),
{
    if b.capacity == usize::MAX || size::total_size(b.events) <= MAX_RETAINED_BYTES
        || b.events.len() == 0 {
        assert(b.events.skip(0) =~= b.events);
    } else {
        let (next, changed) = b.evicted(change);
        law_oldest_events_make_room(next, changed);
        let after = next.trimmed(changed).0;
        let gone = b.events.len() - after.events.len();
        assert(next.events.skip(gone - 1) =~= b.events.skip(gone));
        if gone > 1 {
            assert(next.events.skip(gone - 2) =~= b.events.skip(gone - 1));
        } else {
            assert(b.events.skip(0) =~= b.events);
        }
    }
}

/// An event takes up the bytes of its texts and of its properties, and events
/// take up what each of them does.
pub proof fn law_events_take_up_their_texts(events: Seq<EventView>, event: EventView, i: int)
    ensures
        size::full_size(event) >= bytes::byte_len(event.raw) + bytes::byte_len(event.message)
            + bytes::byte_len(event.source),
        0 <= i < event.properties.len() ==> size::full_size(event) >= bytes::byte_len(event.raw)
            + bytes::byte_len(event.message) + bytes::byte_len(event.source) + bytes::byte_len(
            event.properties[i].key,
        ) + bytes::byte_len(event.properties[i].value.display()),
        size::full_size(event) <= usize::MAX ==> size::total_size(events.push(event))
            == size::total_size(events) + size::full_size(event),
{
    if 0 <= i < event.properties.len() {
        lemma_property_counts(event.properties, i);
    }
    assert(events.push(event).drop_last() =~= events);
}

proof fn lemma_property_counts(properties: Seq<PropertyView>, i: int)
    requires
        0 <= i < properties.len(),
    ensures
        size::properties_size(properties) >= bytes::byte_len(properties[i].key) + bytes::byte_len(
            properties[i].value.display(),
        ),
    decreases properties.len(),
{
    if i < properties.len() - 1 {
        lemma_property_counts(properties.drop_last(), i);
    }
}

// ---------------------------------------------------------------------------
// Sources
// ---------------------------------------------------------------------------

/// A line that names its source comes from there. One that names none comes from
/// the command that wrote it, and without such a command a line that continues
/// another comes from the source that was named last on the stream.
pub proof fn law_lines_come_from_their_sources(b: BufferView, line: Seq<char>, name: Seq<char>)
    requires
        source::buildkit_step(line) is None,
    ensures
        ({
            let read = source::compose_line(line);
            let (after, parsed) = b.resolved(line);
            let stream = b.context.stream;
            &&& read.source_explicit ==> parsed == read && table::lookup(after.active, stream)
                == Some(read.source)
            &&& parsed.message == read.message
            &&& !read.source_explicit && b.context.channel == Some(name) ==> parsed.source == name
                && parsed.source_explicit
            &&& !read.source_explicit && b.context.channel is None && pending::is_continuation(
                read.message,
            ) && table::lookup(b.active, stream) == Some(name) ==> parsed.source == name
                && table::lookup(after.active, stream) == Some(name)
            &&& !read.source_explicit && b.context.channel is None && table::lookup(
                b.active,
                stream,
            ) is None ==> parsed.source == read.source
            &&& !read.source_explicit && b.context.channel is None && !pending::is_continuation(
                read.message,
            ) ==> parsed.source == read.source
            &&& !read.source_explicit && !pending::is_continuation(read.message)
                && table::distinct(b.active) ==> table::lookup(after.active, stream) is None
        }),
{
    let read = source::compose_line(line);
    let stream = b.context.stream;
    let kept = if b.active.len() >= MAX_CONTEXTS && !table::has(b.active, stream) {
        Seq::empty()
    } else {
        b.active
    };
    table::law_put(kept, stream, read.source, stream);
    if table::distinct(b.active) {
        table::law_without(b.active, stream, stream);
    }
}

/// A line continues another where it is blank or indented, where it goes on with a
/// stack or an error, or where it goes on with an object.
pub proof fn law_continuations_are_told(message: Seq<char>, head: Seq<char>, rest: Seq<char>)
    requires
        is_tight(message),
        !head.contains(':'),
    ensures
        pending::is_continuation(Seq::empty()),
        pending::is_continuation(seq![' '] + message),
        pending::is_continuation(seq!['\t'] + message),
        text::starts_with(message, "at "@) ==> pending::is_continuation(message),
        text::starts_with(message, "Caused by:"@) ==> pending::is_continuation(message),
        text::starts_with(message, "Suppressed:"@) ==> pending::is_continuation(message),
        text::starts_with(message, "..."@) ==> pending::is_continuation(message),
        message[0] == '{' || message[0] == '}' || message[0] == '[' || message[0] == ']'
            || message[0] == ',' || message[0] == ')' ==> pending::is_continuation(message),
        message == head + seq![':'] + rest && (text::ends_with(head, "Error"@) || text::ends_with(
            head,
            "Exception"@,
        )) ==> pending::is_continuation(message),
{
    texts::law_trimming_keeps_the_text(Seq::empty(), message, Seq::empty());
    assert((seq![' '] + message)[0] == ' ');
    assert((seq!['\t'] + message)[0] == '\t');
    assert(text::trim(Seq::<char>::empty()).len() == 0);
    texts::law_split_at_the_first_mark(head, rest, ':');
}

/// A line that begins with a letter, has no colon and goes on with nothing is no
/// continuation.
pub proof fn law_new_lines_are_told(message: Seq<char>)
    requires
        is_tight(message),
        'a' <= message[0] <= 'z' || 'A' <= message[0] <= 'Z',
        !message.contains(':'),
        !text::starts_with(message, "at "@),
    ensures
        !pending::is_continuation(message),
{
    texts::law_trimming_keeps_the_text(Seq::empty(), message, Seq::empty());
    texts::law_split_at_the_first_mark(message, Seq::empty(), ':');
    reveal_strlit("Caused by:");
    reveal_strlit("Suppressed:");
    reveal_strlit("...");
    if text::starts_with(message, "Caused by:"@) {
        assert(message.take(10)[9] == message[9]);
        assert(message.take(10)[9] == ':');
        assert(message.contains(':'));
    }
    if text::starts_with(message, "Suppressed:"@) {
        assert(message.take(11)[10] == message[10]);
        assert(message.take(11)[10] == ':');
        assert(message.contains(':'));
    }
    if text::starts_with(message, "..."@) {
        assert(message.take(3)[0] == message[0]);
        assert(message.take(3)[0] == '.');
    }
}

/// A build step that names its service is remembered for its number: a later line
/// of that step on the same stream comes from the service too.
pub proof fn law_build_steps_are_remembered(
    b: BufferView,
    line: Seq<char>,
    parsed: ParsedLineView,
    later: Seq<char>,
    read: ParsedLineView,
)
    requires
        !parsed.source_explicit,
        !read.source_explicit,
        source::buildkit_step(line) is Some,
        source::buildkit_step(line)->0.source is Some,
        source::buildkit_step(later) is Some,
        source::buildkit_step(later)->0.source is None,
        source::buildkit_step(later)->0.step_id == source::buildkit_step(line)->0.step_id,
    ensures
        ({
            let service = source::buildkit_step(line)->0.source->0;
            let (after, first) = b.with_step(line, parsed);
            let second = after.with_step(later, read).1;
            &&& first.source == service && first.source_explicit
            &&& first.message == source::buildkit_step(line)->0.message
            &&& second.source == service && second.source_explicit
            &&& second.message == source::buildkit_step(later)->0.message
        }),
{
    let step = source::buildkit_step(line)->0;
    let key = (b.context.stream, step.step_id);
    let kept = if b.steps.len() >= MAX_BUILD_STEPS {
        Seq::empty()
    } else {
        b.steps
    };
    table::law_put(kept, key, step.source->0, key);
}

// ---------------------------------------------------------------------------
// Blocks
// ---------------------------------------------------------------------------

/// The line of a header.
pub open spec fn header_line(time: Seq<char>, word: Seq<char>, marker: Seq<char>) -> Seq<char> {
    seq!['['] + time + seq![']', ' '] + word + seq![' ', '(', '#'] + marker + seq![')', ':']
}

/// The line of an entry with a quoted text.
pub open spec fn entry_line(key: Seq<char>, t: Seq<char>, quote: char) -> Seq<char> {
    key + seq![':'] + (seq![' '] + in_quotes(t, quote)) + seq![',']
}

/// The buffer after a line on the first stream.
#[verifier::opaque]
pub open spec fn pushed(b: BufferView, line: Seq<char>) -> BufferView {
    b.with_line(0, None, line).0
}

/// A block of properties that follows the event it belongs to is folded into the
/// event: after its header, an opening brace, an entry with a quoted text and a
/// closing brace, the event has the entry's property, with the text between the
/// quotation marks. No event is added, and no other event changes.
pub proof fn law_block_is_folded_into_its_event(
    b: BufferView,
    target: u64,
    time: Seq<char>,
    word: Seq<char>,
    level: Level,
    marker: Seq<char>,
    key: Seq<char>,
    t: Seq<char>,
    quote: char,
)
    requires
        buffer::own_event(b.last, plain_context()) == Some(target),
        buffer::holds(b.events, target),
        b.events[buffer::sequence_index(b.events, target)].timestamp == Some(time),
        b.events[buffer::sequence_index(b.events, target)].level == level,
        table::lookup(b.pending, plain_context()) is None,
        structured::is_timestamp(time),
        is_word_of(word, level),
        !marker.contains(')'),
        clean::free_of_controls(marker),
        bytes::byte_len(header_line(time, word, marker)) <= MAX_RECORD_BYTES,
        is_name(key),
        quote == '"' || quote == '\'',
        is_unmarked(t, quote),
        clean::free_of_controls(t),
        !t.contains('|'),
        bytes::byte_len(entry_line(key, t, quote)) <= 262000,
    ensures
        ({
            let i = buffer::sequence_index(b.events, target);
            let properties = seq![PropertyView { key, value: ValueView::String(t) }];
            let folded = interpret::promoted(EventView { properties, ..b.events[i] }, b.fields);
            let first = pushed(b, header_line(time, word, marker));
            let second = pushed(first, seq!['{']);
            let third = pushed(second, entry_line(key, t, quote));
            let after = pushed(third, seq!['}']);
            &&& first.events == b.events
            &&& second.events == b.events
            &&& third.events == b.events
            &&& folded.properties == properties
            &&& fits(b, b.events.update(i, folded)) ==> after.events == b.events.update(i, folded)
        }),
{
    let entry = entry_line(key, t, quote);
    lemma_opened(b, target, time, word, level, marker);
    let first = pushed(b, header_line(time, word, marker));
    let start = PendingView::start(target, None);
    lemma_brace_lines();
    lemma_entry_line(key, t, quote);
    let opened = start.with_line(seq!['{']);
    assert(opened.lines =~= seq![seq!['{']]);
    lemma_collected(first, start, seq!['{']);
    let second = pushed(first, seq!['{']);
    let filled = opened.with_line(entry);
    assert(filled.lines =~= seq![seq!['{'], entry]);
    lemma_collected(second, opened, entry);
    let third = pushed(second, entry);
    let closed = filled.with_line(seq!['}']);
    assert(closed.lines =~= seq![seq!['{'], entry, seq!['}']]);
    lemma_block_text(key, t, quote);
    let properties = seq![PropertyView { key, value: ValueView::String(t) }];
    lemma_closed(third, filled, seq!['}'], properties);
}

proof fn lemma_opened(
    b: BufferView,
    target: u64,
    time: Seq<char>,
    word: Seq<char>,
    level: Level,
    marker: Seq<char>,
)
    requires
        buffer::own_event(b.last, plain_context()) == Some(target),
        buffer::holds(b.events, target),
        b.events[buffer::sequence_index(b.events, target)].timestamp == Some(time),
        b.events[buffer::sequence_index(b.events, target)].level == level,
        table::lookup(b.pending, plain_context()) is None,
        structured::is_timestamp(time),
        is_word_of(word, level),
        !marker.contains(')'),
        clean::free_of_controls(marker),
        bytes::byte_len(header_line(time, word, marker)) <= MAX_RECORD_BYTES,
    ensures
        ({
            let after = pushed(b, header_line(time, word, marker));
            &&& after.events == b.events
            &&& after.last == b.last
            &&& after.fields == b.fields
            &&& after.capacity == b.capacity
            &&& table::has(b.last, plain_context())
            &&& table::lookup(after.pending, plain_context()) == Some(
                PendingView::start(target, None),
            )
        }),
{
    reveal(pushed);
    let context = plain_context();
    lemma_header_line(time, word, level, marker);
    let start = PendingView::start(target, None);
    let here = BufferView { context, ..b };
    assert(here.header_target(HeaderView { timestamp: time, level, source: None }) == Some(target));
    table::law_put(b.pending, context, start, context);
}

proof fn lemma_closed(
    b: BufferView,
    block: PendingView,
    line: Seq<char>,
    properties: Seq<PropertyView>,
)
    requires
        BufferView::context_of(0, None, line) == plain_context(),
        bytes::byte_len(line) <= MAX_RECORD_BYTES,
        table::has(b.last, plain_context()),
        table::lookup(b.pending, plain_context()) == Some(block),
        buffer::holds(b.events, block.target),
        block.header is None,
        block.takes(line),
        block.with_line(line).complete(),
        property::object_of(text::split::join(block.with_line(line).lines, "\n"@)) == Some(
            properties,
        ),
    ensures
        ({
            let i = buffer::sequence_index(b.events, block.target);
            let folded = interpret::promoted(EventView { properties, ..b.events[i] }, b.fields);
            fits(b, b.events.update(i, folded)) ==> pushed(b, line).events == b.events.update(
                i,
                folded,
            )
        }),
{
    reveal(pushed);
}

proof fn lemma_collected(b: BufferView, block: PendingView, line: Seq<char>)
    requires
        BufferView::context_of(0, None, line) == plain_context(),
        bytes::byte_len(line) <= MAX_RECORD_BYTES,
        table::has(b.last, plain_context()),
        table::lookup(b.pending, plain_context()) == Some(block),
        buffer::holds(b.events, block.target),
        block.takes(line),
        !block.with_line(line).complete(),
    ensures
        ({
            let after = pushed(b, line);
            &&& after.events == b.events
            &&& after.last == b.last
            &&& after.fields == b.fields
            &&& after.capacity == b.capacity
            &&& table::lookup(after.pending, plain_context()) == Some(block.with_line(line))
        }),
{
    reveal(pushed);
    let context = plain_context();
    let open = table::without(b.pending, context);
    table::law_put(open, context, block.with_line(line), context);
}

proof fn lemma_header_line(time: Seq<char>, word: Seq<char>, level: Level, marker: Seq<char>)
    requires
        structured::is_timestamp(time),
        is_word_of(word, level),
        !marker.contains(')'),
        clean::free_of_controls(marker),
    ensures
        structured::block_header(header_line(time, word, marker)) == Some(
            HeaderView { timestamp: time, level, source: None },
        ),
        BufferView::context_of(0, None, header_line(time, word, marker)) == plain_context(),
{
    let line = header_line(time, word, marker);
    let none = Seq::<char>::empty();
    laws::lemma_letters(word, level);
    line_laws::lemma_time_word(time);
    assert forall|i: int| 0 <= i < line.len() implies !text::is_control(#[trigger] line[i]) by {
        let a = 1 + time.len();
        let c = a + 2 + word.len();
        let d = c + 3 + marker.len();
        if 1 <= i < a {
            assert(time[i - 1] == ':' || time[i - 1] == '.' || text::is_digit(time[i - 1]));
        } else if a + 2 <= i < c {
            assert(text::is_ascii_alnum(word[i - a - 2]));
        } else if c + 3 <= i < d {
            assert(!text::is_control(marker[i - c - 3]));
        }
    }
    let message = word + seq![' ', '(', '#'] + marker + seq![')', ':'];
    assert(line =~= seq!['['] + (none + time + none) + seq![']'] + (seq![' '] + message));
    assert(!time.contains(']')) by {
        if time.contains(']') {
            let i = choose|i: int| 0 <= i < time.len() && time[i] == ']';
            assert(time[i] == ':' || time[i] == '.' || text::is_digit(time[i]));
        }
    }
    assert(message[0] == word[0]);
    source_laws::law_name_in_brackets_is_the_source(none, time, seq![' '], message);
    line_laws::law_header_has_its_time_and_level(time, word, marker, None, level);
    let token = seq!['['] + time + seq![']'];
    let rest = seq![' '] + message;
    assert forall|i: int| 0 <= i < token.len() implies !text::is_space(#[trigger] token[i]) by {
        if 1 <= i < token.len() - 1 {
            assert(!text::is_space(time[i - 1]));
        }
    }
    lemma_no_status(token, rest);
    assert(token + rest =~= line);
    assert(token[0] == '[');
    assert(!text::is_name_char(token[0]));
}

proof fn lemma_no_status(token: Seq<char>, rest: Seq<char>)
    requires
        is_word(token),
        rest.len() == 0 || text::is_space(rest[0]),
    ensures
        (exists|i: int| 0 <= i < token.len() && !text::is_name_char(#[trigger] token[i]))
            ==> source::compose_status(token + rest) is None,
        rest.len() == 0 ==> source::compose_status(token + rest) is None,
{
    let line = token + rest;
    let none = Seq::<char>::empty();
    texts::law_first_word_ends_at_white_space(none, token, rest);
    assert(none + token + rest =~= line);
    assert(line[0] == token[0]);
    assert(text::trim_start(line) == line);
}

proof fn lemma_brace_lines()
    ensures
        BufferView::context_of(0, None, seq!['{']) == plain_context(),
        BufferView::context_of(0, None, seq!['}']) == plain_context(),
        source::source_message(seq!['{']) == (None::<Seq<char>>, seq!['{']),
        source::source_message(seq!['}']) == (None::<Seq<char>>, seq!['}']),
        structured::block_header(seq!['{']) is None,
        structured::block_header(seq!['}']) is None,
        bytes::byte_len(seq!['{']) == 1,
        bytes::byte_len(seq!['}']) == 1,
        text::trim(seq!['{']) == seq!['{'],
        text::trim(seq!['}']) == seq!['}'],
        pending::brace_balance(seq!['{'], None, false) == 1,
        pending::brace_balance(seq!['}'], None, false) == -1,
        pending::opens_brace(seq!['{'], None, false),
        !pending::opens_brace(seq!['}'], None, false),
        pending::is_continuation(seq!['}']),
{
    let none = Seq::<char>::empty();
    source_laws::law_line_without_prefix_is_its_message(seq!['{']);
    source_laws::law_line_without_prefix_is_its_message(seq!['}']);
    lemma_no_status(seq!['{'], none);
    lemma_no_status(seq!['}'], none);
    assert(seq!['{'] + none =~= seq!['{']);
    assert(seq!['}'] + none =~= seq!['}']);
    bytes::lemma_byte_len_push(none, '{');
    bytes::lemma_byte_len_push(none, '}');
    assert(none.push('{') =~= seq!['{']);
    assert(none.push('}') =~= seq!['}']);
    reveal_with_fuel(vstd::utf8::encode_utf8, 2);
    assert(bytes::byte_len(none) == 0);
    texts::law_trimming_keeps_the_text(none, seq!['{'], none);
    texts::law_trimming_keeps_the_text(none, seq!['}'], none);
    reveal_with_fuel(pending::brace_balance, 2);
    reveal_with_fuel(pending::opens_brace, 2);
    assert(seq!['{'].drop_first() =~= none);
    assert(seq!['}'].drop_first() =~= none);
    law_continuations_are_told(seq!['}'], none, none);
}

proof fn lemma_entry_line(key: Seq<char>, t: Seq<char>, quote: char)
    requires
        is_name(key),
        quote == '"' || quote == '\'',
        is_unmarked(t, quote),
        clean::free_of_controls(t),
        !t.contains('|'),
    ensures
        ({
            let line = entry_line(key, t, quote);
            &&& BufferView::context_of(0, None, line) == plain_context()
            &&& source::source_message(line) == (None::<Seq<char>>, line)
            &&& structured::block_header(line) is None
            &&& pending::is_continuation(line)
            &&& pending::brace_balance(line, None, false) == 0
            &&& !pending::opens_brace(line, None, false)
        }),
{
    let line = entry_line(key, t, quote);
    let none = Seq::<char>::empty();
    let value = in_quotes(t, quote);
    let k = key.len() as int;
    assert forall|i: int| 0 <= i < key.len() implies text::is_name_char(#[trigger] key[i])
        && !text::is_space(key[i]) && !text::is_control(key[i]) && key[i] != '|' && key[i] != ':'
        && key[i] != '{' && key[i] != '}' && key[i] != '"' && key[i] != '\'' by {
        assert('a' <= key[i] <= 'z' || 'A' <= key[i] <= 'Z' || '0' <= key[i] <= '9' || key[i]
            == '_' || key[i] == '-' || key[i] == '.');
    }
    assert forall|i: int| 0 <= i < line.len() implies !text::is_control(#[trigger] line[i])
        && line[i] != '|' by {
        if i < k {
            assert(line[i] == key[i]);
        } else if k + 3 <= i < k + 3 + t.len() {
            assert(line[i] == t[i - k - 3]);
            assert(!text::is_control(t[i - k - 3]));
            if t[i - k - 3] == '|' {
                assert(t.contains('|'));
            }
        }
    }
    assert(!line.contains('|'));
    assert(line[0] == key[0] && text::is_name_char(key[0]));
    source_laws::law_line_without_prefix_is_its_message(line);
    let token = key + seq![':'];
    let rest = seq![' '] + value + seq![','];
    assert forall|i: int| 0 <= i < token.len() implies !text::is_space(#[trigger] token[i]) by {
        if i < k {
            assert(token[i] == key[i]);
        }
    }
    lemma_no_status(token, rest);
    assert(token + rest =~= line);
    assert(token[k] == ':' && !text::is_name_char(token[k]));
    assert(line.last() == ',');
    texts::law_trimming_keeps_the_text(none, line, none);

    assert(!key.contains(':'));
    texts::law_split_at_the_first_mark(key, rest, ':');
    assert(key + seq![':'] + rest =~= line);
    texts::law_trimming_keeps_the_text(none, key, none);
    let ended = value + seq![','];
    assert(ended[0] == quote && ended.last() == ',');
    texts::law_trimming_keeps_the_text(seq![' '], ended, none);
    assert(seq![' '] + ended + none =~= rest);
    assert(value[0] == quote && value.last() == quote);
    assert(ended.drop_last() =~= value);
    assert(text::trim_end_char(value, ',') == value);
    assert(text::trim_end_char(ended, ',') == value);
    texts::law_trimming_keeps_the_text(none, value, none);
    assert(text::all_name_chars(key));
    assert(pending::is_block_entry(line));

    let quoted = seq![quote] + (t + (seq![quote] + seq![',']));
    lemma_plain_braces(key + seq![':', ' '], quoted);
    assert(key + seq![':', ' '] + quoted =~= line);
    assert(quoted.drop_first() =~= t + (seq![quote] + seq![',']));
    lemma_quoted_braces(t, quote, seq![quote] + seq![',']);
    let end = seq![quote] + seq![','];
    assert(end.drop_first() =~= seq![',']);
    assert(seq![','].drop_first() =~= none);
    reveal_with_fuel(pending::brace_balance, 3);
    reveal_with_fuel(pending::opens_brace, 3);
}

proof fn lemma_plain_braces(s: Seq<char>, rest: Seq<char>)
    requires
        forall|i: int|
            0 <= i < s.len() ==> #[trigger] s[i] != '{' && s[i] != '}' && s[i] != '"' && s[i]
                != '\'',
    ensures
        pending::brace_balance(s + rest, None, false) == pending::brace_balance(rest, None, false),
        pending::opens_brace(s + rest, None, false) == pending::opens_brace(rest, None, false),
    decreases s.len(),
{
    if s.len() > 0 {
        let tail = s.drop_first();
        assert forall|i: int| 0 <= i < tail.len() implies #[trigger] tail[i] != '{' && tail[i]
            != '}' && tail[i] != '"' && tail[i] != '\'' by {
            assert(tail[i] == s[i + 1]);
        }
        lemma_plain_braces(tail, rest);
        assert((s + rest).drop_first() =~= tail + rest);
        assert((s + rest)[0] == s[0]);
    } else {
        assert(s + rest =~= rest);
    }
}

proof fn lemma_quoted_braces(t: Seq<char>, quote: char, rest: Seq<char>)
    requires
        is_unmarked(t, quote),
    ensures
        pending::brace_balance(t + rest, Some(quote), false) == pending::brace_balance(
            rest,
            Some(quote),
            false,
        ),
        pending::opens_brace(t + rest, Some(quote), false) == pending::opens_brace(
            rest,
            Some(quote),
            false,
        ),
    decreases t.len(),
{
    if t.len() > 0 {
        let tail = t.drop_first();
        assert forall|i: int| 0 <= i < tail.len() implies #[trigger] tail[i] != quote && tail[i]
            != '\\' by {
            assert(tail[i] == t[i + 1]);
        }
        lemma_quoted_braces(tail, quote, rest);
        assert((t + rest).drop_first() =~= tail + rest);
        assert((t + rest)[0] == t[0]);
    } else {
        assert(t + rest =~= rest);
    }
}

proof fn lemma_block_text(key: Seq<char>, t: Seq<char>, quote: char)
    requires
        is_name(key),
        quote == '"' || quote == '\'',
        is_unmarked(t, quote),
        clean::free_of_controls(t),
    ensures
        property::object_of(
            text::split::join(seq![seq!['{'], entry_line(key, t, quote), seq!['}']], "\n"@),
        ) == Some(seq![PropertyView { key, value: ValueView::String(t) }]),
{
    reveal_strlit("\n");
    assert("\n"@ =~= seq!['\n']);
    let entry = entry_line(key, t, quote);
    let value = in_quotes(t, quote);
    texts::law_joining_separates(seq![seq!['{']], entry, "\n"@);
    texts::law_joining_separates(seq![seq!['{']].push(entry), seq!['}'], "\n"@);
    texts::law_joining_separates(Seq::empty(), seq!['{'], "\n"@);
    assert(seq![seq!['{']].push(entry).push(seq!['}']) =~= seq![seq!['{'], entry, seq!['}']]);
    let joined = seq!['{'] + seq!['\n'] + (entry + seq!['\n'] + seq!['}']);
    assert(seq!['{'] + seq!['\n'] + entry + seq!['\n'] + seq!['}'] =~= joined);
    assert forall|i: int| 0 <= i < key.len() implies text::is_name_char(#[trigger] key[i])
        && !text::is_space(key[i]) && key[i] != ':' && key[i] != '\n' && key[i] != '"' && key[i]
        != '\'' && key[i] != '}' by {
        assert('a' <= key[i] <= 'z' || 'A' <= key[i] <= 'Z' || '0' <= key[i] <= '9' || key[i]
            == '_' || key[i] == '-' || key[i] == '.');
    }
    assert(laws::is_bare_key(key)) by {
        assert(text::is_name_char(key[0]) && text::is_name_char(key[key.len() - 1]));
        assert(!key.contains(':'));
    }
    assert(text::is_name_char(key[0]));
    assert(value[0] == quote && value.last() == quote);
    assert(!value.contains('\n')) by {
        if value.contains('\n') {
            let i = choose|i: int| 0 <= i < value.len() && value[i] == '\n';
            assert(value[i] == t[i - 1]);
            assert(!text::is_control(t[i - 1]));
        }
    }
    assert(!key.contains('\n'));
    laws::law_block_gives_its_property(key, value);
    laws::law_quoted_value_is_its_text(t, quote);
}

/// A block that ended before the event it belongs to came is folded into that
/// event: the event gets the properties of the block, and the one that stood for
/// the block leaves.
pub proof fn law_early_block_joins_its_event(
    b: BufferView,
    change: ChangeView,
    block: CompletedView,
)
    requires
        b.events.len() > 0,
        b.completed.len() > 0,
        b.completed[0] == block,
        block.context == b.context,
        b.events.last().sequence != block.header_sequence,
        b.events.last().timestamp == Some(block.header.timestamp),
        b.events.last().level == block.header.level,
        buffer::in_sequence(b.events),
    ensures
        ({
            let (after, told) = b.joined(change);
            let event = b.events.last();
            let folded = interpret::promoted(
                EventView { properties: block.properties, ..event },
                b.fields,
            );
            &&& after.events.last() == folded
            &&& told.updated == change.updated.push(event.sequence)
            &&& forall|i: int|
                0 <= i < after.events.len() ==> (#[trigger] after.events[i]).sequence
                    != block.header_sequence
            &&& after.completed == b.completed.drop_first()
        }),
{
    let event = b.events.last();
    let folded = interpret::promoted(
        EventView { properties: block.properties, ..event },
        b.fields,
    );
    assert(folded.sequence == event.sequence);
    let events = b.events.update(b.events.len() - 1, folded);
    buffer::lemma_sequence_index(events, block.header_sequence);
    let index = buffer::sequence_index(events, block.header_sequence);
    let after = b.joined(change).0;
    assert(b.completed.remove(0) =~= b.completed.drop_first());
    assert forall|i: int, j: int| 0 <= i < j < events.len() implies (#[trigger] events[i]).sequence
        < (#[trigger] events[j]).sequence by {
        assert(events[i].sequence == b.events[i].sequence);
        assert(events[j].sequence == b.events[j].sequence);
    }
    if index < events.len() {
        assert(index != events.len() - 1);
        assert(after.events[after.events.len() - 1] == events[events.len() - 1]);
        assert forall|i: int| 0 <= i < after.events.len() implies (
        #[trigger] after.events[i]).sequence != block.header_sequence by {
            if i < index {
                assert(after.events[i] == events[i]);
            } else {
                assert(after.events[i] == events[i + 1]);
                assert(events[index].sequence < events[i + 1].sequence);
            }
        }
    }
}

/// A block that a line does not go on with is given up: the line is no part of it,
/// and a block that was open is told to be incomplete.
pub proof fn law_interrupted_block_is_given_up(
    b: BufferView,
    line: Seq<char>,
    change: ChangeView,
    block: PendingView,
)
    requires
        table::lookup(b.pending, b.context) == Some(block),
        table::distinct(b.pending),
        buffer::holds(b.events, block.target),
        !block.takes(line),
    ensures
        ({
            let (after, told, taken) = b.with_pending(line, change);
            &&& !taken
            &&& table::lookup(after.pending, b.context) is None
            &&& after.events == b.events
            &&& block.open ==> told.notice == Some(
                "incomplete or oversized property block abandoned"@,
            )
            &&& !block.open ==> told == change
        }),
{
    table::law_without(b.pending, b.context, b.context);
}

/// A block takes no other header, no line that continues nothing, and no more lines
/// and bytes than it may hold.
pub proof fn law_blocks_take_what_continues_them(block: PendingView, line: Seq<char>)
    ensures
        structured::block_header(line) is Some ==> !block.takes(line),
        block.lines.len() >= 1024 ==> !block.takes(line),
        block.bytes + bytes::byte_len(line) > 256 * 1024 ==> !block.takes(line),
        block.open && !pending::is_continuation(source::source_message(line).1) ==> !block.takes(
            line,
        ),
        block.open && block.lines.len() < 1024 && block.bytes + bytes::byte_len(line) <= 256 * 1024
            && structured::block_header(line) is None && pending::is_continuation(
            source::source_message(line).1,
        ) ==> block.takes(line),
{
}

/// A header without an event to belong to is an event itself, and its block is
/// remembered for the event that comes after it.
pub proof fn law_header_without_event_waits(
    b: BufferView,
    line: Seq<char>,
    change: ChangeView,
    header: HeaderView,
)
    requires
        table::lookup(b.pending, b.context) is None,
        structured::block_header(line) == Some(header),
        b.header_target(header) is None,
        b.capacity > 0,
    ensures
        ({
            let (after, told) = b.with_record(line, change);
            let (next, changed, sequence) = b.with_event(line, change);
            &&& sequence is Some
            &&& after.events == next.events
            &&& told == changed
            &&& table::lookup(after.pending, b.context) == Some(
                PendingView::start(sequence->0, Some(header)),
            )
        }),
{
    let (next, changed, sequence) = b.with_event(line, change);
    table::law_put(
        next.pending,
        b.context,
        PendingView::start(sequence->0, Some(header)),
        b.context,
    );
}

/// A header belongs to the last event of its context where that has its time and its
/// level, and to no event with another time or level.
pub proof fn law_header_belongs_to_its_event(b: BufferView, header: HeaderView, sequence: u64)
    requires
        buffer::own_event(b.last, b.context) == Some(sequence),
        buffer::holds(b.events, sequence),
    ensures
        ({
            let event = b.events[buffer::sequence_index(b.events, sequence)];
            &&& event.timestamp == Some(header.timestamp) && event.level == header.level
                ==> b.header_target(header) == Some(sequence)
            &&& b.context.prefix.len() > 0 && (event.timestamp != Some(header.timestamp)
                || event.level != header.level) ==> b.header_target(header) is None
        }),
{
}

/// An event that leaves takes with it what waits for it.
pub proof fn law_leaving_event_is_waited_for_no_more(
    entries: Seq<(ContextView, PendingView)>,
    sequence: u64,
)
    ensures
        buffer::pending_without(entries, sequence) == entries.filter(
            |entry: (ContextView, PendingView)| entry.1.target != sequence,
        ),
    decreases entries.len(),
{
    reveal(Seq::filter);
    if entries.len() > 0 {
        law_leaving_event_is_waited_for_no_more(entries.drop_last(), sequence);
    }
}

/// An entry with a number, a word of truth or absence, or another object or list
/// continues a block, as does one with a quoted text.
pub proof fn law_entries_continue_blocks(key: Seq<char>, value: Seq<char>)
    requires
        is_name(key),
        is_tight(value),
        value.last() != ',',
        '0' <= value[0] <= '9' || value[0] == '-' || value[0] == '"' || value[0] == '\'' || value[0]
            == '{' || value[0] == '[' || value == "true"@ || value == "false"@ || value == "null"@,
    ensures
        pending::is_continuation(key + seq![':'] + (seq![' '] + value)),
        pending::is_continuation(key + seq![':'] + (seq![' '] + value + seq![','])),
{
    let none = Seq::<char>::empty();
    let rest = seq![' '] + value;
    let ended = seq![' '] + value + seq![','];
    let line = key + seq![':'] + rest;
    let listed = key + seq![':'] + ended;
    assert forall|i: int| 0 <= i < key.len() implies text::is_name_char(#[trigger] key[i])
        && !text::is_space(key[i]) && key[i] != ':' && key[i] != '"' && key[i] != '\'' by {
        assert('a' <= key[i] <= 'z' || 'A' <= key[i] <= 'Z' || '0' <= key[i] <= '9' || key[i]
            == '_' || key[i] == '-' || key[i] == '.');
    }
    assert(!key.contains(':'));
    assert(text::is_name_char(key[0]) && text::is_name_char(key[key.len() - 1]));
    texts::law_split_at_the_first_mark(key, rest, ':');
    texts::law_split_at_the_first_mark(key, ended, ':');
    texts::law_trimming_keeps_the_text(none, key, none);
    assert(line[0] == key[0] && line.last() == value.last());
    assert(listed[0] == key[0] && listed.last() == ',');
    texts::law_trimming_keeps_the_text(none, line, none);
    texts::law_trimming_keeps_the_text(none, listed, none);
    texts::law_trimming_keeps_the_text(seq![' '], value, none);
    assert(seq![' '] + value + none =~= rest);
    let marked = value + seq![','];
    assert(marked[0] == value[0] && marked.last() == ',');
    texts::law_trimming_keeps_the_text(seq![' '], marked, none);
    assert(seq![' '] + marked + none =~= ended);
    assert(marked.drop_last() =~= value);
    assert(text::trim_end_char(value, ',') == value);
    assert(text::trim_end_char(marked, ',') == value);
    texts::law_trimming_keeps_the_text(none, value, none);
    assert(text::all_name_chars(key));
    assert(pending::is_block_entry(line));
    assert(pending::is_block_entry(listed));
}

/// A block of another context, or for another time or level, is not folded into an
/// event.
pub proof fn law_other_blocks_join_no_event(b: BufferView, change: ChangeView)
    requires
        b.events.len() > 0,
        forall|i: int|
            0 <= i < b.completed.len() ==> (#[trigger] b.completed[i]).context != b.context
                || b.events.last().timestamp != Some(b.completed[i].header.timestamp)
                || b.events.last().level != b.completed[i].header.level,
    ensures
        b.joined(change) == (b, change),
{
    lemma_no_block(b.completed, b.context, b.events.last());
}

proof fn lemma_no_block(blocks: Seq<CompletedView>, context: ContextView, event: EventView)
    requires
        forall|i: int|
            0 <= i < blocks.len() ==> (#[trigger] blocks[i]).context != context || event.timestamp
                != Some(blocks[i].header.timestamp) || event.level != blocks[i].header.level,
    ensures
        buffer::fitting_block(blocks, context, event) == blocks.len(),
    decreases blocks.len(),
{
    if blocks.len() > 0 {
        let rest = blocks.drop_first();
        assert(blocks[0].context != context || event.timestamp != Some(blocks[0].header.timestamp)
            || event.level != blocks[0].header.level);
        assert forall|i: int| 0 <= i < rest.len() implies (#[trigger] rest[i]).context != context
            || event.timestamp != Some(rest[i].header.timestamp) || event.level
            != rest[i].header.level by {
            assert(rest[i] == blocks[i + 1]);
        }
        lemma_no_block(rest, context, event);
    }
}

/// A line that names its source leaves the sources of the other streams as they are.
pub proof fn law_streams_keep_their_sources(b: BufferView, parsed: ParsedLineView, other: u64)
    requires
        other != b.context.stream,
        b.active.len() < MAX_CONTEXTS,
        table::distinct(b.active),
    ensures
        table::lookup(b.with_active(parsed).0.active, other) == table::lookup(b.active, other),
{
    table::law_put(b.active, b.context.stream, parsed.source, other);
    table::law_without(b.active, b.context.stream, other);
}

/// Braces are counted outside quotation marks: one that opens counts up, one that
/// closes counts down, and what stands between quotation marks counts nothing.
pub proof fn law_braces_are_counted_outside_quotes(
    plain: Seq<char>,
    t: Seq<char>,
    quote: char,
    rest: Seq<char>,
)
    requires
        forall|i: int|
            0 <= i < plain.len() ==> #[trigger] plain[i] != '{' && plain[i] != '}' && plain[i]
                != '"' && plain[i] != '\'',
        quote == '"' || quote == '\'',
        is_unmarked(t, quote),
    ensures
        pending::brace_balance(plain + rest, None, false) == pending::brace_balance(
            rest,
            None,
            false,
        ),
        pending::brace_balance(seq!['{'] + rest, None, false) == 1 + pending::brace_balance(
            rest,
            None,
            false,
        ),
        pending::brace_balance(seq!['}'] + rest, None, false) == pending::brace_balance(
            rest,
            None,
            false,
        ) - 1,
        pending::brace_balance(in_quotes(t, quote) + rest, None, false) == pending::brace_balance(
            rest,
            None,
            false,
        ),
        pending::opens_brace(seq!['{'] + rest, None, false),
        pending::opens_brace(in_quotes(t, quote) + rest, None, false) == pending::opens_brace(
            rest,
            None,
            false,
        ),
{
    lemma_plain_braces(plain, rest);
    assert((seq!['{'] + rest).drop_first() =~= rest);
    assert((seq!['}'] + rest).drop_first() =~= rest);
    let end = seq![quote] + rest;
    let marked = in_quotes(t, quote) + rest;
    assert(marked.drop_first() =~= t + end);
    assert(marked[0] == quote);
    lemma_quoted_braces(t, quote, end);
    assert(end.drop_first() =~= rest);
    assert(end[0] == quote);
}

/// A block that holds no object changes no event and is told to be malformed; one
/// that does gives its properties to its event and to no other.
pub proof fn law_blocks_give_their_properties(
    b: BufferView,
    block: PendingView,
    change: ChangeView,
    i: int,
)
    requires
        buffer::holds(b.events, block.target),
        0 <= i < b.events.len(),
        i != buffer::sequence_index(b.events, block.target),
    ensures
        ({
            let read = property::object_of(text::split::join(block.lines, "\n"@));
            let at = buffer::sequence_index(b.events, block.target);
            let (after, told) = b.with_block(block, change);
            &&& read is None ==> after == b && told.notice == Some(
                "malformed property block ignored"@,
            )
            &&& read is Some && b.capacity == usize::MAX ==> {
                &&& after.events.len() == b.events.len()
                &&& after.events[at].properties == read->0
                &&& after.events[at].raw == b.events[at].raw
                &&& after.events[at].message == b.events[at].message
                &&& after.events[i] == b.events[i]
                &&& told.updated == change.updated.push(block.target)
            }
        }),
{
    buffer::lemma_sequence_index(b.events, block.target);
}

} // verus!
