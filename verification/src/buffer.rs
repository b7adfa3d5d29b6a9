//! A bounded buffer of events.
//!
//! Lines become events; lines that continue an event with a block of
//! properties are folded into it. What the buffer remembers of its sources is
//! bounded, as are the events it holds.
pub mod apart;
pub mod keep;
pub mod laws;
pub mod pending;
pub mod push;
pub mod size;

use crate::buffer::pending::{PendingPropertyBlock, PendingView};
use crate::model::interpret::LogInterpreter;
use crate::model::{event, interpret, property, source, structured};
use crate::model::{
    EventView, HeaderView, LogEvent, LogProperty, ParsedLineView, PropertyBlockHeader, PropertyView,
    SourceConfig,
};
use crate::table::{self, Key, Table};
use crate::text;
use crate::text::{copy_opt, opt_same, same};
use std::collections::VecDeque;
use vstd::prelude::*;

verus! {

broadcast use text::lemma_views_push;

/// The number of source contexts that are remembered.
pub const MAX_CONTEXTS: usize = 128;

/// The number of build steps that are remembered.
pub const MAX_BUILD_STEPS: usize = 1024;

/// The number of bytes of a line that are kept.
pub const MAX_RECORD_BYTES: usize = 262144;

/// The number of bytes of events that are kept.
pub const MAX_RETAINED_BYTES: usize = 67108864;

// ---------------------------------------------------------------------------
// The parts of the buffer
// ---------------------------------------------------------------------------

/// Where a line comes from: the stream, the command that wrote it, and the
/// source that the line names itself.
#[derive(Debug, PartialEq, Eq)]
pub struct Context {
    pub stream: u64,
    pub channel: Option<String>,
    pub prefix: String,
}

/// What a context is.
pub struct ContextView {
    pub stream: u64,
    pub channel: Option<Seq<char>>,
    pub prefix: Seq<char>,
}

impl View for Context {
    type V = ContextView;

    open spec fn view(&self) -> ContextView {
        ContextView {
            stream: self.stream,
            channel: text::opt_view(self.channel),
            prefix: self.prefix@,
        }
    }
}

impl Clone for Context {
    fn clone(&self) -> (result: Self)
        ensures
            result == *self,
    {
        Context {
            stream: self.stream,
            channel: copy_opt(&self.channel),
            prefix: self.prefix.clone(),
        }
    }
}

impl Key for Context {
    fn same_key(&self, other: &Self) -> (result: bool) {
        self.stream == other.stream && opt_same(&self.channel, &other.channel) && same(
            self.prefix.as_str(),
            other.prefix.as_str(),
        )
    }
}

/// The last event of a context: one that came from it, or one of another context
/// that a header from it was given to.
#[derive(Debug, Clone, Copy, PartialEq, Eq, Structural)]
pub struct LastEvent {
    pub sequence: u64,
    pub own: bool,
}

impl View for LastEvent {
    type V = LastEvent;

    open spec fn view(&self) -> LastEvent {
        *self
    }
}

/// A step of an image build on a stream.
#[derive(Debug, PartialEq, Eq)]
pub struct BuildStep {
    pub stream: u64,
    pub step_id: String,
}

impl View for BuildStep {
    type V = (u64, Seq<char>);

    open spec fn view(&self) -> (u64, Seq<char>) {
        (self.stream, self.step_id@)
    }
}

impl Key for BuildStep {
    fn same_key(&self, other: &Self) -> (result: bool) {
        self.stream == other.stream && same(self.step_id.as_str(), other.step_id.as_str())
    }
}

/// A block of properties that ended before the event it belongs to came.
#[derive(Debug)]
pub struct CompletedPropertyBlock {
    pub context: Context,
    pub header_sequence: u64,
    pub header: PropertyBlockHeader,
    pub properties: Vec<LogProperty>,
}

/// What a completed block is.
pub struct CompletedView {
    pub context: ContextView,
    pub header_sequence: u64,
    pub header: HeaderView,
    pub properties: Seq<PropertyView>,
}

impl View for CompletedPropertyBlock {
    type V = CompletedView;

    open spec fn view(&self) -> CompletedView {
        CompletedView {
            context: self.context@,
            header_sequence: self.header_sequence,
            header: self.header@,
            properties: text::views(self.properties@),
        }
    }
}

/// What a line did to the buffer.
#[derive(Debug, PartialEq, Eq)]
pub struct BufferChange {
    pub appended: Option<u64>,
    pub consumed_by: Option<u64>,
    pub notice: Option<&'static str>,
    pub removed: Vec<u64>,
    pub updated: Vec<u64>,
}

/// What a change is.
pub struct ChangeView {
    pub appended: Option<u64>,
    pub consumed_by: Option<u64>,
    pub notice: Option<Seq<char>>,
    pub removed: Seq<u64>,
    pub updated: Seq<u64>,
}

impl View for BufferChange {
    type V = ChangeView;

    open spec fn view(&self) -> ChangeView {
        ChangeView {
            appended: self.appended,
            consumed_by: self.consumed_by,
            notice: match self.notice {
                Some(notice) => Some(notice@),
                None => None,
            },
            removed: self.removed@,
            updated: self.updated@,
        }
    }
}

/// The change that nothing made.
pub open spec fn no_change() -> ChangeView {
    ChangeView {
        appended: None,
        consumed_by: None,
        notice: None,
        removed: Seq::empty(),
        updated: Seq::empty(),
    }
}

impl Default for BufferChange {
    fn default() -> (result: Self)
        ensures
            result@ == no_change(),
    {
        BufferChange {
            appended: None,
            consumed_by: None,
            notice: None,
            removed: Vec::new(),
            updated: Vec::new(),
        }
    }
}

/// A buffer of events and what is remembered to read the next line.
#[derive(Debug)]
pub struct LogBuffer {
    pub capacity: usize,
    pub next_sequence: u64,
    pub events: VecDeque<LogEvent>,
    pub retained_bytes: u128,
    pub pending_properties: Table<Context, PendingPropertyBlock>,
    pub context: Context,
    pub last_sequences: Table<Context, LastEvent>,
    pub completed_property_blocks: VecDeque<CompletedPropertyBlock>,
    pub active_source: Table<u64, String>,
    pub buildkit_steps: Table<BuildStep, String>,
    pub source_config: SourceConfig,
    pub interpreter: LogInterpreter,
}

/// What a buffer is.
pub struct BufferView {
    pub capacity: int,
    pub next: int,
    pub events: Seq<EventView>,
    pub pending: Seq<(ContextView, PendingView)>,
    pub context: ContextView,
    pub last: Seq<(ContextView, LastEvent)>,
    pub completed: Seq<CompletedView>,
    pub active: Seq<(u64, Seq<char>)>,
    pub steps: Seq<((u64, Seq<char>), Seq<char>)>,
    pub fields: Seq<Seq<char>>,
}

impl View for LogBuffer {
    type V = BufferView;

    open spec fn view(&self) -> BufferView {
        BufferView {
            capacity: self.capacity as int,
            next: self.next_sequence as int,
            events: text::views(self.events@),
            pending: self.pending_properties@,
            context: self.context@,
            last: self.last_sequences@,
            completed: text::views(self.completed_property_blocks@),
            active: self.active_source@,
            steps: self.buildkit_steps@,
            fields: self.source_config@.fields,
        }
    }
}

/// A buffer before its first line.
pub open spec fn empty(capacity: int, fields: Seq<Seq<char>>) -> BufferView {
    BufferView {
        capacity,
        next: 0,
        events: Seq::empty(),
        pending: Seq::empty(),
        context: ContextView { stream: 0, channel: None, prefix: Seq::empty() },
        last: Seq::empty(),
        completed: Seq::empty(),
        active: Seq::empty(),
        steps: Seq::empty(),
        fields,
    }
}

// ---------------------------------------------------------------------------
// Sequences
// ---------------------------------------------------------------------------

/// Whether the events come in the order of their sequence numbers.
pub open spec fn in_sequence(events: Seq<EventView>) -> bool {
    forall|i: int, j: int|
        0 <= i < j < events.len() ==> (#[trigger] events[i]).sequence < (
        #[trigger] events[j]).sequence
}

/// The index of the event with a sequence number, or the number of events.
pub open spec fn sequence_index(events: Seq<EventView>, sequence: u64) -> int
    decreases events.len(),
{
    if events.len() == 0 || events[0].sequence == sequence {
        0
    } else {
        1 + sequence_index(events.drop_first(), sequence)
    }
}

/// Whether an event with a sequence number is there.
pub open spec fn holds(events: Seq<EventView>, sequence: u64) -> bool {
    sequence_index(events, sequence) < events.len()
}

/// `sequence_index` is the first event with the number.
pub proof fn lemma_sequence_index(events: Seq<EventView>, sequence: u64)
    ensures
        0 <= sequence_index(events, sequence) <= events.len(),
        holds(events, sequence) ==> events[sequence_index(events, sequence)].sequence == sequence,
        forall|i: int|
            0 <= i < sequence_index(events, sequence) ==> (#[trigger] events[i]).sequence
                != sequence,
    decreases events.len(),
{
    if events.len() > 0 && events[0].sequence != sequence {
        let rest = events.drop_first();
        lemma_sequence_index(rest, sequence);
        assert forall|i: int| 0 <= i < sequence_index(events, sequence) implies (
        #[trigger] events[i]).sequence != sequence by {
            if i > 0 {
                assert(rest[i - 1] == events[i]);
            }
        }
    }
}

/// An event in sequence is found where it stands.
pub proof fn lemma_sequence_at(events: Seq<EventView>, i: int)
    requires
        in_sequence(events),
        0 <= i < events.len(),
    ensures
        sequence_index(events, events[i].sequence) == i,
{
    lemma_sequence_index(events, events[i].sequence);
}

/// Finds the event with a sequence number.
pub fn find_sequence(events: &VecDeque<LogEvent>, sequence: u64) -> (result: usize)
    requires
        in_sequence(text::views(events@)),
    ensures
        result == sequence_index(text::views(events@), sequence),
        result <= events@.len(),
{
    let ghost all = text::views(events@);
    let count: usize = events.len();
    let mut low: usize = 0;
    let mut high: usize = count;
    while low < high
        invariant
            count == events@.len(),
            all == text::views(events@),
            in_sequence(all),
            low <= high <= count,
            forall|i: int| 0 <= i < low ==> (#[trigger] all[i]).sequence < sequence,
            forall|i: int| high <= i < count ==> (#[trigger] all[i]).sequence > sequence,
        decreases high - low,
    {
        let middle: usize = low + (high - low) / 2;
        let found = events[middle].sequence;
        assert(all[middle as int].sequence == found);
        if found == sequence {
            proof {
                lemma_sequence_at(all, middle as int);
            }
            return middle;
        }
        if found < sequence {
            low = middle + 1;
        } else {
            high = middle;
        }
    }
    proof {
        lemma_sequence_index(all, sequence);
        if holds(all, sequence) {
            assert(all[sequence_index(all, sequence)].sequence == sequence);
        }
    }
    count
}

// ---------------------------------------------------------------------------
// What a line does
// ---------------------------------------------------------------------------

/// The pending blocks without those of an event.
pub open spec fn pending_without(
    entries: Seq<(ContextView, PendingView)>,
    sequence: u64,
) -> Seq<(ContextView, PendingView)>
    decreases entries.len(),
{
    if entries.len() == 0 {
        entries
    } else if entries.last().1.target == sequence {
        pending_without(entries.drop_last(), sequence)
    } else {
        pending_without(entries.drop_last(), sequence).push(entries.last())
    }
}

/// The completed blocks without those of an event.
pub open spec fn completed_without(blocks: Seq<CompletedView>, sequence: u64) -> Seq<CompletedView>
    decreases blocks.len(),
{
    if blocks.len() == 0 {
        blocks
    } else if blocks.last().header_sequence == sequence {
        completed_without(blocks.drop_last(), sequence)
    } else {
        completed_without(blocks.drop_last(), sequence).push(blocks.last())
    }
}

/// A line cut to the bytes that are kept, with a note where it was cut.
pub open spec fn record(line: Seq<char>) -> Seq<char> {
    if text::bytes::byte_len(line) > MAX_RECORD_BYTES {
        text::bytes::truncate(line, MAX_RECORD_BYTES as nat) + " [loggle: record truncated]"@
    } else {
        line
    }
}

/// Whether a completed block belongs to an event that came in a context.
pub open spec fn block_fits(
    block: CompletedView,
    context: ContextView,
    event: EventView,
) -> bool {
    &&& block.context == context
    &&& event.sequence != block.header_sequence
    &&& event.timestamp == Some(block.header.timestamp)
    &&& event.level == block.header.level
}

/// The index of the first block that belongs to an event, or the number of
/// blocks.
pub open spec fn fitting_block(
    blocks: Seq<CompletedView>,
    context: ContextView,
    event: EventView,
) -> int
    decreases blocks.len(),
{
    if blocks.len() == 0 || block_fits(blocks[0], context, event) {
        0
    } else {
        1 + fitting_block(blocks.drop_first(), context, event)
    }
}

/// The last events of the contexts of a stream and a command that have events of
/// their own.
pub open spec fn own_events(
    last: Seq<(ContextView, LastEvent)>,
    stream: u64,
    channel: Option<Seq<char>>,
) -> Seq<u64>
    decreases last.len(),
{
    if last.len() == 0 {
        Seq::empty()
    } else {
        let before = own_events(last.drop_last(), stream, channel);
        let (context, event) = last.last();
        if context.stream == stream && context.channel == channel && event.own {
            before.push(event.sequence)
        } else {
            before
        }
    }
}

/// The last event of a stream and a command where one context alone has events
/// of its own.
pub open spec fn only_event(
    last: Seq<(ContextView, LastEvent)>,
    stream: u64,
    channel: Option<Seq<char>>,
) -> Option<u64> {
    let events = own_events(last, stream, channel);
    if events.len() == 1 {
        Some(events[0])
    } else {
        None
    }
}

/// The last event of a context, where it is the context's own.
pub open spec fn own_event(
    last: Seq<(ContextView, LastEvent)>,
    context: ContextView,
) -> Option<u64> {
    match table::lookup(last, context) {
        Some(event) => if event.own {
            Some(event.sequence)
        } else {
            None
        },
        None => None,
    }
}

impl BufferView {
    /// The number of completed blocks that are kept.
    pub open spec fn block_limit(self) -> int {
        if self.capacity < MAX_CONTEXTS {
            self.capacity
        } else {
            MAX_CONTEXTS as int
        }
    }

    /// The first event leaves, and with it what waits for it.
    pub open spec fn evicted(self, change: ChangeView) -> (BufferView, ChangeView) {
        if self.events.len() == 0 {
            (self, change)
        } else {
            let sequence = self.events[0].sequence;
            (
                BufferView {
                    events: self.events.drop_first(),
                    pending: pending_without(self.pending, sequence),
                    completed: completed_without(self.completed, sequence),
                    ..self
                },
                ChangeView { removed: change.removed.push(sequence), ..change },
            )
        }
    }

    /// First events leave until the others fit into the bytes that are kept; a
    /// buffer without a limit keeps all.
    pub open spec fn trimmed(self, change: ChangeView) -> (BufferView, ChangeView)
        decreases self.events.len(),
    {
        if self.capacity == usize::MAX || size::total_size(self.events) <= MAX_RETAINED_BYTES
            || self.events.len() == 0 {
            (self, change)
        } else {
            let (next, changed) = self.evicted(change);
            next.trimmed(changed)
        }
    }

    /// A build step names its service, or is given the one it named before.
    pub open spec fn with_step(self, line: Seq<char>, parsed: ParsedLineView) -> (
        BufferView,
        ParsedLineView,
    ) {
        if parsed.source_explicit {
            (self, parsed)
        } else {
            match source::buildkit_step(line) {
                None => (self, parsed),
                Some(step) => {
                    let key = (self.context.stream, step.step_id);
                    match step.source {
                        Some(source) => {
                            let kept = if self.steps.len() >= MAX_BUILD_STEPS {
                                Seq::empty()
                            } else {
                                self.steps
                            };
                            (
                                BufferView { steps: table::put(kept, key, source), ..self },
                                ParsedLineView {
                                    source,
                                    message: step.message,
                                    source_explicit: true,
                                },
                            )
                        },
                        None => match table::lookup(self.steps, key) {
                            Some(source) => (
                                self,
                                ParsedLineView {
                                    source,
                                    message: step.message,
                                    source_explicit: true,
                                },
                            ),
                            None => (self, parsed),
                        },
                    }
                },
            }
        }
    }

    /// A line that names its source makes it the active one; a continuation
    /// takes the active source; any other line ends it.
    pub open spec fn with_active(self, parsed: ParsedLineView) -> (BufferView, ParsedLineView) {
        let stream = self.context.stream;
        if parsed.source_explicit {
            let kept = if self.active.len() >= MAX_CONTEXTS && !table::has(self.active, stream) {
                Seq::empty()
            } else {
                self.active
            };
            (BufferView { active: table::put(kept, stream, parsed.source), ..self }, parsed)
        } else if pending::is_continuation(parsed.message) {
            match table::lookup(self.active, stream) {
                Some(source) => (self, ParsedLineView { source, ..parsed }),
                None => (self, parsed),
            }
        } else {
            (BufferView { active: table::without(self.active, stream), ..self }, parsed)
        }
    }

    /// The source and the message of a line in the present context.
    pub open spec fn resolved(self, line: Seq<char>) -> (BufferView, ParsedLineView) {
        let (stepped, step) = self.with_step(line, source::compose_line(line));
        let (next, parsed) = stepped.with_active(step);
        match self.context.channel {
            Some(channel) => if parsed.source_explicit {
                (next, parsed)
            } else {
                (next, ParsedLineView { source: channel, source_explicit: true, ..parsed })
            },
            None => (next, parsed),
        }
    }

    /// The text of a line as it is kept.
    pub open spec fn raw(self, line: Seq<char>) -> Seq<char> {
        match self.context.channel {
            Some(channel) => "["@ + channel + "] "@ + line,
            None => line,
        }
    }

    /// A block that ended before its event came is folded into the event, and
    /// the event that stood for the block leaves.
    pub open spec fn joined(self, change: ChangeView) -> (BufferView, ChangeView) {
        if self.events.len() == 0 {
            (self, change)
        } else {
            let event = self.events.last();
            let at = fitting_block(self.completed, self.context, event);
            if at >= self.completed.len() {
                (self, change)
            } else {
                let block = self.completed[at];
                let updated = interpret::promoted(
                    EventView { properties: block.properties, ..event },
                    self.fields,
                );
                let events = self.events.update(self.events.len() - 1, updated);
                let index = sequence_index(events, block.header_sequence);
                let told = ChangeView { updated: change.updated.push(event.sequence), ..change };
                let next = BufferView { completed: self.completed.remove(at), events, ..self };
                if index < events.len() {
                    (
                        BufferView { events: events.remove(index), ..next },
                        ChangeView { removed: told.removed.push(block.header_sequence), ..told },
                    )
                } else {
                    (next, told)
                }
            }
        }
    }

    /// Room for one more event, and the event that a line becomes.
    pub open spec fn taken_in(self, line: Seq<char>, change: ChangeView) -> (
        BufferView,
        ChangeView,
        EventView,
    ) {
        let (known, parsed) = self.resolved(line);
        let (free, told) = if known.events.len() == known.capacity {
            known.evicted(change)
        } else {
            (known, change)
        };
        let event = interpret::promoted(
            event::event_of(free.next as u64, self.raw(line), parsed.source, parsed.message),
            self.fields,
        );
        (free, told, event)
    }

    /// One more event, the last of its context.
    pub open spec fn with_appended(self, event: EventView) -> BufferView {
        BufferView {
            next: self.next + 1,
            events: self.events.push(event),
            last: table::put(
                self.last,
                self.context,
                LastEvent { sequence: event.sequence, own: true },
            ),
            ..self
        }
    }

    /// A line becomes an event. A buffer without room keeps none.
    pub open spec fn with_event(self, line: Seq<char>, change: ChangeView) -> (
        BufferView,
        ChangeView,
        Option<u64>,
    ) {
        if self.capacity == 0 {
            let known = self.resolved(line).0;
            (BufferView { next: known.next + 1, ..known }, change, None)
        } else {
            let (free, told, event) = self.taken_in(line, change);
            let (folded, folding) = free.with_appended(event).joined(
                ChangeView { appended: Some(event.sequence), ..told },
            );
            let (next, changed) = folded.trimmed(folding);
            (next, changed, Some(event.sequence))
        }
    }

    /// A block has ended: its event gets the properties.
    pub open spec fn with_block(self, block: PendingView, change: ChangeView) -> (
        BufferView,
        ChangeView,
    ) {
        match property::object_of(text::split::join(block.lines, "\n"@)) {
            None => (
                self,
                ChangeView { notice: Some("malformed property block ignored"@), ..change },
            ),
            Some(properties) => {
                let index = sequence_index(self.events, block.target);
                let (told, events) = if index < self.events.len() {
                    (
                        ChangeView { updated: change.updated.push(block.target), ..change },
                        self.events.update(
                            index,
                            interpret::promoted(
                                EventView { properties, ..self.events[index] },
                                self.fields,
                            ),
                        ),
                    )
                } else {
                    (change, self.events)
                };
                let completed = match block.header {
                    None => self.completed,
                    Some(header) => {
                        let all = self.completed.push(
                            CompletedView {
                                context: self.context,
                                header_sequence: block.target,
                                header,
                                properties,
                            },
                        );
                        if all.len() > self.block_limit() {
                            all.skip(all.len() - self.block_limit())
                        } else {
                            all
                        }
                    },
                };
                (BufferView { events, completed, ..self }).trimmed(told)
            },
        }
    }

    /// A line is taken by the block that is pending in its context, if any.
    pub open spec fn with_pending(self, line: Seq<char>, change: ChangeView) -> (
        BufferView,
        ChangeView,
        bool,
    ) {
        match table::lookup(self.pending, self.context) {
            None => (self, change, false),
            Some(block) => {
                let open = BufferView {
                    pending: table::without(self.pending, self.context),
                    ..self
                };
                if !holds(self.events, block.target) {
                    (open, change, false)
                } else if !block.takes(line) {
                    let told = if block.open {
                        ChangeView {
                            notice: Some("incomplete or oversized property block abandoned"@),
                            ..change
                        }
                    } else {
                        change
                    };
                    (open, told, false)
                } else {
                    let longer = block.with_line(line);
                    let told = ChangeView { consumed_by: Some(block.target), ..change };
                    if longer.complete() {
                        let (next, changed) = open.with_block(longer, told);
                        (next, changed, true)
                    } else {
                        (
                            BufferView {
                                pending: table::put(open.pending, self.context, longer),
                                ..open
                            },
                            told,
                            true,
                        )
                    }
                }
            },
        }
    }

    /// An event that a header can belong to, by its number: one with the time and
    /// the level of the header.
    pub open spec fn target_at(self, sequence: Option<u64>, header: HeaderView) -> Option<u64> {
        match sequence {
            None => None,
            Some(sequence) => {
                let index = sequence_index(self.events, sequence);
                if index < self.events.len() && self.events[index].timestamp == Some(
                    header.timestamp,
                ) && self.events[index].level == header.level {
                    Some(sequence)
                } else {
                    None
                }
            },
        }
    }

    /// The event that a header in the present context belongs to: the last one
    /// there. A header that names no source can also belong to the last event of
    /// its stream, where no more than one source has written to it.
    pub open spec fn header_target(self, header: HeaderView) -> Option<u64> {
        let own = self.target_at(own_event(self.last, self.context), header);
        if own is None && self.context.prefix.len() == 0 {
            self.target_at(
                only_event(self.last, self.context.stream, self.context.channel),
                header,
            )
        } else {
            own
        }
    }

    /// The last events when a header was given to an event. A context without an
    /// event of its own remembers that of another.
    pub open spec fn with_target(self, target: u64) -> Seq<(ContextView, LastEvent)> {
        if own_event(self.last, self.context) is Some {
            self.last
        } else {
            table::put(self.last, self.context, LastEvent { sequence: target, own: false })
        }
    }

    /// The buffer in the context of a line. Where too many contexts would be
    /// remembered, what is inferred from lines before is forgotten.
    pub open spec fn in_context(self, context: ContextView) -> (BufferView, ChangeView) {
        let here = BufferView { context, ..self };
        if !table::has(self.last, context) && self.last.len() >= MAX_CONTEXTS {
            (
                BufferView {
                    last: Seq::empty(),
                    pending: Seq::empty(),
                    completed: Seq::empty(),
                    active: Seq::empty(),
                    ..here
                },
                ChangeView {
                    notice: Some("source context limit reached; multiline inference reset"@),
                    ..no_change()
                },
            )
        } else {
            (here, no_change())
        }
    }

    /// The context of a line from a command on a stream.
    pub open spec fn context_of(
        stream: u64,
        channel: Option<Seq<char>>,
        line: Seq<char>,
    ) -> ContextView {
        let parsed = source::compose_line(line);
        ContextView {
            stream,
            channel,
            prefix: if parsed.source_explicit {
                parsed.source
            } else {
                Seq::empty()
            },
        }
    }

    /// A recorded line: it continues a pending block, begins one, or becomes
    /// an event.
    pub open spec fn with_record(self, line: Seq<char>, change: ChangeView) -> (
        BufferView,
        ChangeView,
    ) {
        let (open, told, taken) = self.with_pending(line, change);
        if taken {
            (open, told)
        } else {
            match structured::block_header(line) {
                None => {
                    let (next, changed, _) = open.with_event(line, told);
                    (next, changed)
                },
                Some(header) => match open.header_target(header) {
                    Some(target) => (
                        BufferView {
                            pending: table::put(
                                open.pending,
                                self.context,
                                PendingView::start(target, None),
                            ),
                            last: open.with_target(target),
                            ..open
                        },
                        ChangeView { consumed_by: Some(target), ..told },
                    ),
                    None => {
                        let (next, changed, sequence) = open.with_event(line, told);
                        match sequence {
                            Some(target) => (
                                BufferView {
                                    pending: table::put(
                                        next.pending,
                                        self.context,
                                        PendingView::start(target, Some(header)),
                                    ),
                                    ..next
                                },
                                changed,
                            ),
                            None => (next, changed),
                        }
                    },
                },
            }
        }
    }

    /// The buffer after a line, and what the line did to it.
    pub open spec fn with_line(
        self,
        stream: u64,
        channel: Option<Seq<char>>,
        line: Seq<char>,
    ) -> (BufferView, ChangeView) {
        let kept = record(line);
        let (here, change) = self.in_context(BufferView::context_of(stream, channel, kept));
        here.with_record(kept, change)
    }
}

} // verus!
