//! Reading lines into the buffer.
use crate::buffer::pending::{self, is_continuation_line, PendingPropertyBlock, PendingView};
use crate::buffer::size::{self, event_bytes};
use crate::buffer::{self, find_sequence, keep};
use crate::buffer::{
    BufferChange, BufferView, BuildStep, CompletedPropertyBlock, CompletedView, Context,
    ContextView, LastEvent, LogBuffer, MAX_BUILD_STEPS, MAX_CONTEXTS, MAX_RECORD_BYTES,
    MAX_RETAINED_BYTES,
};
use crate::model::interpret::LogInterpreter;
use crate::model::source::parse_buildkit_step_line;
use crate::model::{copy_properties, interpret, property, source};
use crate::model::{
    EventView, LogEvent, LogProperty, ParsedLine, PropertyBlockHeader, SourceConfig,
};
use crate::table::{self, Key, Table};
use crate::text;
use crate::text::bytes::{str_len, truncate_chars};
use crate::text::split::join_strings;
use crate::text::{chars_of, opt_is, opt_same, push_str, string_of};
use std::collections::VecDeque;
use vstd::prelude::*;

verus! {

broadcast use text::lemma_views_push;

fn drop_pending(blocks: &mut Table<Context, PendingPropertyBlock>, sequence: u64)
    ensures
        final(blocks)@ == buffer::pending_without(old(blocks)@, sequence),
{
    let ghost all = blocks@;
    let ghost mut seen: int = 0;
    let mut i: usize = 0;
    assert(all.take(0) =~= Seq::<(ContextView, PendingView)>::empty());
    assert(Seq::<(ContextView, PendingView)>::empty() + all.skip(0) =~= all);
    while i < blocks.entries.len()
        invariant
            0 <= seen <= all.len(),
            i == buffer::pending_without(all.take(seen), sequence).len(),
            blocks@ == buffer::pending_without(all.take(seen), sequence) + all.skip(seen),
        decreases blocks.entries@.len() - i,
    {
        let ghost kept = buffer::pending_without(all.take(seen), sequence);
        assert(seen < all.len());
        assert(blocks@[i as int] == all[seen]);
        assert(blocks.entries@[i as int].1@ == all[seen].1);
        assert(all.take(seen + 1).drop_last() =~= all.take(seen));
        if blocks.entries[i].1.target_sequence == sequence {
            let ghost before = blocks@;
            blocks.entries.remove(i);
            assert(blocks@ =~= before.remove(i as int));
            assert(blocks@ =~= kept + all.skip(seen + 1));
        } else {
            i += 1;
            assert(blocks@ =~= kept.push(all[seen]) + all.skip(seen + 1));
        }
        proof {
            seen = seen + 1;
        }
    }
    assert(blocks@.len() == i);
    assert(seen == all.len());
    assert(all.take(seen) =~= all);
    assert(blocks@ =~= buffer::pending_without(all, sequence));
}

fn drop_completed(blocks: &mut VecDeque<CompletedPropertyBlock>, sequence: u64)
    ensures
        text::views(final(blocks)@) == buffer::completed_without(
            text::views(old(blocks)@),
            sequence,
        ),
{
    let ghost all = text::views(blocks@);
    let ghost mut seen: int = 0;
    let mut i: usize = 0;
    assert(all.take(0) =~= Seq::<CompletedView>::empty());
    assert(Seq::<CompletedView>::empty() + all.skip(0) =~= all);
    while i < blocks.len()
        invariant
            0 <= seen <= all.len(),
            i == buffer::completed_without(all.take(seen), sequence).len(),
            text::views(blocks@) == buffer::completed_without(all.take(seen), sequence) + all.skip(
                seen,
            ),
        decreases blocks@.len() - i,
    {
        let ghost kept = buffer::completed_without(all.take(seen), sequence);
        assert(text::views(blocks@).len() == blocks@.len());
        assert(seen < all.len());
        assert(text::views(blocks@)[i as int] == all[seen]);
        assert(blocks@[i as int]@ == all[seen]);
        assert(all.take(seen + 1).drop_last() =~= all.take(seen));
        if blocks[i].header_sequence == sequence {
            let ghost before = text::views(blocks@);
            let _ = blocks.remove(i);
            assert(text::views(blocks@) =~= before.remove(i as int));
            assert(text::views(blocks@) =~= kept + all.skip(seen + 1));
        } else {
            i += 1;
            assert(text::views(blocks@) =~= kept.push(all[seen]) + all.skip(seen + 1));
        }
        proof {
            seen = seen + 1;
        }
    }
    assert(text::views(blocks@).len() == i);
    assert(seen == all.len());
    assert(all.take(seen) =~= all);
    assert(text::views(blocks@) =~= buffer::completed_without(all, sequence));
}

impl LogBuffer {
    /// Whether the count of bytes is that of the events.
    pub open spec fn counted(&self) -> bool {
        self.retained_bytes == size::total_size(self@.events)
    }

    /// What holds of a buffer between lines.
    pub open spec fn wf(&self) -> bool {
        self@.valid() && self.counted()
    }

    /// A buffer of some capacity with the default source fields.
    pub fn new(capacity: usize) -> (result: Self)
        ensures
            result.wf(),
            result@ == buffer::empty(
                capacity as int,
                crate::model::source_config(Seq::empty()).fields,
            ),
    {
        LogBuffer::with_source_config(capacity, SourceConfig::default())
    }

    /// A buffer of some capacity.
    pub fn with_source_config(capacity: usize, source_config: SourceConfig) -> (result: Self)
        ensures
            result.wf(),
            result@ == buffer::empty(capacity as int, source_config@.fields),
            result.source_config == source_config,
    {
        let result = LogBuffer {
            capacity,
            next_sequence: 0,
            events: VecDeque::new(),
            retained_bytes: 0,
            pending_properties: Table::new(),
            context: Context { stream: 0, channel: None, prefix: String::new() },
            last_sequences: Table::new(),
            completed_property_blocks: VecDeque::new(),
            active_source: Table::new(),
            buildkit_steps: Table::new(),
            source_config,
            interpreter: LogInterpreter,
        };
        assert(text::views(result.events@) =~= Seq::<EventView>::empty());
        assert(text::views(result.completed_property_blocks@) =~= Seq::<CompletedView>::empty());
        result
    }

    /// A buffer that keeps every event.
    pub fn unbounded_with_source_config(source_config: SourceConfig) -> (result: Self)
        ensures
            result.wf(),
            result@ == buffer::empty(usize::MAX as int, source_config@.fields),
            result.source_config == source_config,
    {
        LogBuffer::with_source_config(usize::MAX, source_config)
    }

    /// The number of events.
    pub fn len(&self) -> (result: usize)
        ensures
            result == self@.events.len(),
    {
        self.events.len()
    }

    /// The events, oldest first.
    pub fn events(&self) -> (result: &VecDeque<LogEvent>)
        ensures
            *result == self.events,
            text::views(result@) == self@.events,
    {
        &self.events
    }

    /// The event with a sequence number.
    pub fn event_by_sequence(&self, sequence: u64) -> (result: Option<&LogEvent>)
        requires
            buffer::in_sequence(self@.events),
        ensures
            match result {
                Some(event) => buffer::holds(self@.events, sequence)
                    && event@ == self@.events[buffer::sequence_index(self@.events, sequence)]
                    && event@.sequence == sequence,
                None => !buffer::holds(self@.events, sequence),
            },
    {
        if self.events.len() == 0 {
            return None;
        }
        let first = self.events[0].sequence;
        proof {
            buffer::lemma_sequence_index(self@.events, sequence);
        }
        if sequence < first {
            assert(self@.events[0].sequence == first);
            return None;
        }
        // Where no event left from between, the number tells the place.
        let offset: u64 = sequence - first;
        if offset < self.events.len() as u64 {
            let index: usize = offset as usize;
            if self.events[index].sequence == sequence {
                assert(self@.events[index as int].sequence == sequence);
                proof {
                    buffer::lemma_sequence_at(self@.events, index as int);
                }
                return Some(&self.events[index]);
            }
        }
        let index = find_sequence(&self.events, sequence);
        if index < self.events.len() {
            Some(&self.events[index])
        } else {
            None
        }
    }

    fn evict_front(&mut self, change: &mut BufferChange)
        requires
            old(self).counted(),
        ensures
            (final(self)@, final(change)@) == old(self)@.evicted(old(change)@),
            final(self).counted(),
            final(self).source_config == old(self).source_config,
    {
        let ghost before = self@.events;
        match self.events.pop_front() {
            Some(event) => {
                proof {
                    assert(text::views(self.events@) =~= before.drop_first());
                    assert(before.drop_first() =~= before.remove(0));
                    size::lemma_total_split(before, 0);
                    assert(event@ == before[0]);
                }
                let bytes = event_bytes(&event);
                self.retained_bytes -= bytes as u128;
                drop_pending(&mut self.pending_properties, event.sequence);
                drop_completed(&mut self.completed_property_blocks, event.sequence);
                change.removed.push(event.sequence);
            },
            None => {
                assert(before =~= Seq::<EventView>::empty());
                assert(text::views(self.events@) =~= before);
            },
        }
    }

    fn trim_bytes(&mut self, change: &mut BufferChange)
        requires
            old(self).counted(),
        ensures
            (final(self)@, final(change)@) == old(self)@.trimmed(old(change)@),
            final(self).counted(),
            final(self).source_config == old(self).source_config,
    {
        // A buffer without a limit is read from a bounded file and needs all
        // its events; the live one has a budget.
        if self.capacity == usize::MAX {
            return ;
        }
        while self.retained_bytes > MAX_RETAINED_BYTES as u128
            invariant
                self.counted(),
                self.capacity != usize::MAX,
                self.source_config == old(self).source_config,
                old(self)@.trimmed(old(change)@) == self@.trimmed(change@),
            decreases self@.events.len(),
        {
            assert(self@.events.len() > 0);
            self.evict_front(change);
        }
    }

    fn apply_buildkit_source_context(&mut self, line: &str, parsed: &mut ParsedLine)
        requires
            old(self).counted(),
        ensures
            (final(self)@, final(parsed)@) == old(self)@.with_step(line@, old(parsed)@),
            final(self).counted(),
            final(self).source_config == old(self).source_config,
    {
        if parsed.source_explicit {
            return ;
        }
        let step = match parse_buildkit_step_line(line) {
            Some(step) => step,
            None => {
                return ;
            },
        };
        let key = BuildStep { stream: self.context.stream, step_id: step.step_id };
        match step.source {
            Some(source) => {
                if self.buildkit_steps.len() >= MAX_BUILD_STEPS {
                    self.buildkit_steps.clear();
                }
                self.buildkit_steps.insert(key, source.clone());
                parsed.source = source;
                parsed.message = step.message;
                parsed.source_explicit = true;
            },
            None => {
                match self.buildkit_steps.get(&key) {
                    Some(source) => {
                        parsed.source = source.clone();
                        parsed.message = step.message;
                        parsed.source_explicit = true;
                    },
                    None => {},
                }
            },
        }
    }

    fn apply_source_context(&mut self, parsed: &mut ParsedLine)
        requires
            old(self).counted(),
        ensures
            (final(self)@, final(parsed)@) == old(self)@.with_active(old(parsed)@),
            final(self).counted(),
            final(self).source_config == old(self).source_config,
    {
        let stream = self.context.stream;
        if parsed.source_explicit {
            if self.active_source.len() >= MAX_CONTEXTS && !self.active_source.contains_key(
                &stream,
            ) {
                self.active_source.clear();
            }
            self.active_source.insert(stream, parsed.source.clone());
            return ;
        }
        if is_continuation_line(parsed.message.as_str()) {
            match self.active_source.get(&stream) {
                Some(source) => {
                    parsed.source = source.clone();
                },
                None => {},
            }
        } else {
            let _ = self.active_source.remove(&stream);
        }
    }

    fn resolve_source(&mut self, line: &str) -> (parsed: ParsedLine)
        requires
            old(self).counted(),
        ensures
            (final(self)@, parsed@) == old(self)@.resolved(line@),
            final(self).counted(),
            final(self).source_config == old(self).source_config,
    {
        let mut parsed = self.interpreter.parse_source_line(line);
        self.apply_buildkit_source_context(line, &mut parsed);
        self.apply_source_context(&mut parsed);
        if !parsed.source_explicit {
            match &self.context.channel {
                Some(source) => {
                    parsed.source = source.clone();
                    parsed.source_explicit = true;
                },
                None => {},
            }
        }
        parsed
    }

    fn raw_line(&self, line: String) -> (result: String)
        ensures
            result@ == self@.raw(line@),
    {
        match &self.context.channel {
            Some(channel) => {
                let mut out = chars_of("[");
                push_str(&mut out, channel.as_str());
                push_str(&mut out, "] ");
                push_str(&mut out, line.as_str());
                string_of(out.as_slice())
            },
            None => line,
        }
    }

    fn push_event(&mut self, line: String, change: &mut BufferChange) -> (result: Option<u64>)
        requires
            old(self).wf(),
            old(self)@.has_room(),
            old(self)@.next < u64::MAX,
            keep::accounts(old(self)@.events, old(self)@.events, old(change)@),
            old(change)@.appended is None,
        ensures
            (final(self)@, final(change)@, result) == old(self)@.with_event(line@, old(change)@),
            final(self).counted(),
            final(self).source_config == old(self).source_config,
    {
        if self.capacity == 0 {
            let _ = self.resolve_source(line.as_str());
            self.next_sequence += 1;
            return None;
        }
        proof {
            keep::lemma_appended(self@, self@.events, line@, change@);
        }
        let event = self.take_in(line, change);
        let sequence = event.sequence;
        self.append_event(event);
        change.appended = Some(sequence);
        self.apply_completed_property_block_to_back(change);
        self.trim_bytes(change);
        Some(sequence)
    }

    fn take_in(&mut self, line: String, change: &mut BufferChange) -> (event: LogEvent)
        requires
            old(self).counted(),
        ensures
            (final(self)@, final(change)@, event@) == old(self)@.taken_in(line@, old(change)@),
            final(self).counted(),
            final(self).source_config == old(self).source_config,
    {
        let parsed = self.resolve_source(line.as_str());
        assert(self@.events.len() == self.events@.len());
        if self.events.len() == self.capacity {
            self.evict_front(change);
        }
        let raw = self.raw_line(line);
        self.interpreter.event_from_source_line(
            self.next_sequence,
            raw,
            parsed,
            &self.source_config,
        )
    }

    fn append_event(&mut self, event: LogEvent)
        requires
            old(self).counted(),
            old(self)@.next < u64::MAX,
            old(self)@.events.len() < usize::MAX,
            event.sequence == old(self)@.next,
        ensures
            final(self)@ == old(self)@.with_appended(event@),
            final(self).counted(),
            final(self).source_config == old(self).source_config,
    {
        let sequence = event.sequence;
        let bytes = event_bytes(&event);
        proof {
            let all = self@.events;
            assert(all.push(event@).drop_last() =~= all);
            assert(all.len() == self.events@.len());
            size::lemma_total_bound(all.push(event@));
        }
        self.next_sequence += 1;
        self.retained_bytes += bytes as u128;
        self.events.push_back(event);
        self.last_sequences.insert(self.context.clone(), LastEvent { sequence, own: true });
    }

    fn find_fitting_block(&self, event: &LogEvent) -> (result: usize)
        ensures
            result == buffer::fitting_block(self@.completed, self@.context, event@),
            result <= self@.completed.len(),
    {
        let ghost all = self@.completed;
        let mut i: usize = 0;
        assert(all.skip(0) =~= all);
        while i < self.completed_property_blocks.len()
            invariant
                i <= self.completed_property_blocks@.len(),
                all == text::views(self.completed_property_blocks@),
                buffer::fitting_block(all, self@.context, event@) == i + buffer::fitting_block(
                    all.skip(i as int),
                    self@.context,
                    event@,
                ),
            decreases self.completed_property_blocks@.len() - i,
        {
            let block = &self.completed_property_blocks[i];
            assert(all[i as int] == block@);
            if block.context.same_key(&self.context) && event.sequence != block.header_sequence
                && opt_is(&event.timestamp, block.header.timestamp.as_str()) && event.level
                == block.header.level {
                return i;
            }
            assert(all.skip(i as int).drop_first() =~= all.skip(i + 1));
            i += 1;
        }
        i
    }

    /// Gives the event at an index other properties, and counts its bytes anew.
    fn set_event_properties(&mut self, index: usize, properties: Vec<LogProperty>)
        requires
            old(self).counted(),
            index < old(self)@.events.len(),
        ensures
            final(self)@ == (BufferView {
                events: old(self)@.events.update(
                    index as int,
                    interpret::promoted(
                        EventView {
                            properties: text::views(properties@),
                            ..old(self)@.events[index as int]
                        },
                        old(self)@.fields,
                    ),
                ),
                ..old(self)@
            }),
            final(self).counted(),
            final(self).source_config == old(self).source_config,
    {
        let ghost before = self@.events;
        match self.events.remove(index) {
            Some(event) => {
                let mut event = event;
                assert(event@ == before[index as int]);
                proof {
                    size::lemma_total_split(before, index as int);
                    assert(text::views(self.events@) =~= before.remove(index as int));
                }
                let bytes = event_bytes(&event);
                self.retained_bytes -= bytes as u128;
                self.interpreter.apply_properties(&mut event, properties, &self.source_config);
                let bytes = event_bytes(&event);
                proof {
                    let after = before.update(index as int, event@);
                    size::lemma_total_split(after, index as int);
                    assert(after.remove(index as int) =~= before.remove(index as int));
                    size::lemma_total_bound(after);
                    assert(before.len() == old(self).events@.len());
                    assert(old(self).events.len() == old(self).events@.len());
                }
                self.retained_bytes += bytes as u128;
                self.events.insert(index, event);
                assert(text::views(self.events@) =~= before.update(index as int, event@));
            },
            None => {},
        }
    }

    fn apply_completed_property_block_to_back(&mut self, change: &mut BufferChange)
        requires
            old(self).counted(),
            old(self)@.ordered(),
        ensures
            (final(self)@, final(change)@) == old(self)@.joined(old(change)@),
            final(self).counted(),
            final(self).source_config == old(self).source_config,
    {
        let ghost before = self@;
        if self.events.len() == 0 {
            return ;
        }
        let last: usize = self.events.len() - 1;
        let target_sequence = self.events[last].sequence;
        let position = self.find_fitting_block(&self.events[last]);
        assert(self.events@[last as int]@ == before.events.last());
        if position >= self.completed_property_blocks.len() {
            return ;
        }
        match self.completed_property_blocks.remove(position) {
            None => {},
            Some(block) => {
                assert(block@ == before.completed[position as int]);
                assert(text::views(self.completed_property_blocks@) =~= before.completed.remove(
                    position as int,
                ));
                let header_sequence = block.header_sequence;
                self.set_event_properties(last, block.properties);
                change.updated.push(target_sequence);
                let ghost events = self@.events;
                assert(buffer::in_sequence(events)) by {
                    assert forall|i: int, j: int| 0 <= i < j < events.len() implies (
                    #[trigger] events[i]).sequence < (#[trigger] events[j]).sequence by {
                        assert(before.events[i].sequence < before.events[j].sequence);
                    }
                }
                let index = find_sequence(&self.events, header_sequence);
                if index < self.events.len() {
                    proof {
                        size::lemma_total_split(events, index as int);
                        buffer::lemma_sequence_index(events, header_sequence);
                    }
                    match self.events.remove(index) {
                        Some(event) => {
                            assert(event@ == events[index as int]);
                            assert(text::views(self.events@) =~= events.remove(index as int));
                            let bytes = event_bytes(&event);
                            self.retained_bytes -= bytes as u128;
                            change.removed.push(event.sequence);
                        },
                        None => {},
                    }
                }
            },
        }
    }

    fn target_at(&self, sequence: Option<u64>, header: &PropertyBlockHeader) -> (result: Option<
        u64,
    >)
        requires
            self@.ordered(),
        ensures
            result == self@.target_at(sequence, header@),
    {
        match sequence {
            None => None,
            Some(sequence) => match self.event_by_sequence(sequence) {
                None => None,
                Some(event) => {
                    if opt_is(&event.timestamp, header.timestamp.as_str()) && event.level
                        == header.level {
                        Some(event.sequence)
                    } else {
                        None
                    }
                },
            },
        }
    }

    fn only_event(&self) -> (result: Option<u64>)
        ensures
            result == buffer::only_event(self@.last, self@.context.stream, self@.context.channel),
    {
        let ghost all = self@.last;
        let ghost stream = self@.context.stream;
        let ghost channel = self@.context.channel;
        let mut found: Option<u64> = None;
        let mut i: usize = 0;
        assert(all.take(0) =~= Seq::<(ContextView, LastEvent)>::empty());
        while i < self.last_sequences.entries.len()
            invariant
                i <= self.last_sequences.entries@.len(),
                all == self@.last,
                stream == self@.context.stream,
                channel == self@.context.channel,
                all.len() == self.last_sequences.entries@.len(),
                ({
                    let events = buffer::own_events(all.take(i as int), stream, channel);
                    match found {
                        Some(sequence) => events == seq![sequence],
                        None => events.len() == 0,
                    }
                }),
            decreases self.last_sequences.entries@.len() - i,
        {
            let entry = &self.last_sequences.entries[i];
            assert(all[i as int] == (entry.0@, entry.1));
            assert(all.take(i + 1).drop_last() =~= all.take(i as int));
            if entry.0.stream == self.context.stream && opt_same(
                &entry.0.channel,
                &self.context.channel,
            ) && entry.1.own {
                if found.is_some() {
                    proof {
                        lemma_more_events(all, i + 1, stream, channel);
                    }
                    return None;
                }
                found = Some(entry.1.sequence);
            }
            i += 1;
        }
        assert(all.take(i as int) =~= all);
        found
    }

    fn property_target_sequence(&self, header: &PropertyBlockHeader) -> (result: Option<u64>)
        requires
            self@.ordered(),
        ensures
            result == self@.header_target(header@),
    {
        let own = self.target_at(self.own_event(), header);
        if own.is_none() && self.context.prefix.as_str().is_empty() {
            self.target_at(self.only_event(), header)
        } else {
            own
        }
    }

    fn own_event(&self) -> (result: Option<u64>)
        ensures
            result == buffer::own_event(self@.last, self@.context),
    {
        match self.last_sequences.get(&self.context) {
            Some(last) => if last.own {
                Some(last.sequence)
            } else {
                None
            },
            None => None,
        }
    }

    fn trim_completed_property_blocks(&mut self)
        ensures
            final(self)@ == (BufferView {
                completed: if old(self)@.completed.len() > old(self)@.block_limit() {
                    old(self)@.completed.skip(
                        old(self)@.completed.len() - old(self)@.block_limit(),
                    )
                } else {
                    old(self)@.completed
                },
                ..old(self)@
            }),
            final(self).retained_bytes == old(self).retained_bytes,
            final(self).source_config == old(self).source_config,
    {
        let limit: usize = if self.capacity < MAX_CONTEXTS {
            self.capacity
        } else {
            MAX_CONTEXTS
        };
        let ghost all = self@.completed;
        let ghost mut dropped: int = 0;
        assert(all.skip(0) =~= all);
        while self.completed_property_blocks.len() > limit
            invariant
                limit == old(self)@.block_limit(),
                0 <= dropped <= all.len(),
                dropped > 0 ==> all.len() - dropped >= limit,
                text::views(self.completed_property_blocks@) == all.skip(dropped),
                self@ == (BufferView { completed: all.skip(dropped), ..old(self)@ }),
                self.retained_bytes == old(self).retained_bytes,
                self.source_config == old(self).source_config,
            decreases self.completed_property_blocks@.len(),
        {
            let ghost before = self.completed_property_blocks@;
            assert(text::views(before).len() == before.len());
            let _ = self.completed_property_blocks.pop_front();
            assert(self.completed_property_blocks@ == before.subrange(1, before.len() as int));
            assert forall|i: int| 0 <= i < before.len() - 1 implies (#[trigger] text::views(
                self.completed_property_blocks@,
            )[i]) == all.skip(dropped)[i + 1] by {
                assert(text::views(before)[i + 1] == before[i + 1]@);
            }
            assert(text::views(self.completed_property_blocks@) =~= all.skip(dropped + 1));
            proof {
                dropped = dropped + 1;
            }
        }
        assert(text::views(self.completed_property_blocks@).len() <= limit);
    }

    fn apply_pending_properties(&mut self, block: PendingPropertyBlock, change: &mut BufferChange)
        requires
            old(self).counted(),
            old(self)@.ordered(),
        ensures
            (final(self)@, final(change)@) == old(self)@.with_block(block@, old(change)@),
            final(self).counted(),
            final(self).source_config == old(self).source_config,
    {
        let body = join_strings(&block.lines, "\n");
        let properties = match self.interpreter.property_object(body.as_str()) {
            Some(properties) => properties,
            None => {
                change.notice = Some("malformed property block ignored");
                return ;
            },
        };
        let index = find_sequence(&self.events, block.target_sequence);
        if index < self.events.len() {
            self.set_event_properties(index, copy_properties(&properties));
            change.updated.push(block.target_sequence);
        }
        match block.deferred_header {
            Some(header) => {
                self.completed_property_blocks.push_back(
                    CompletedPropertyBlock {
                        context: self.context.clone(),
                        header_sequence: block.target_sequence,
                        header,
                        properties,
                    },
                );
                self.trim_completed_property_blocks();
            },
            None => {},
        }
        self.trim_bytes(change);
    }

    fn push_pending_property_line(&mut self, line: &str, change: &mut BufferChange) -> (result:
        bool)
        requires
            old(self).wf(),
        ensures
            (final(self)@, final(change)@, result) == old(self)@.with_pending(
                line@,
                old(change)@,
            ),
            final(self).counted(),
            final(self).source_config == old(self).source_config,
    {
        proof {
            keep::lemma_take_pending(self@);
        }
        let mut block = match self.pending_properties.remove(&self.context) {
            Some(block) => block,
            None => {
                assert(table::without(old(self)@.pending, self@.context) == old(self)@.pending);
                return false;
            },
        };
        if self.event_by_sequence(block.target_sequence).is_none() {
            return false;
        }
        if !block.push_line(line) {
            if block.saw_open {
                change.notice = Some("incomplete or oversized property block abandoned");
            }
            return false;
        }
        change.consumed_by = Some(block.target_sequence);
        if block.is_complete() {
            self.apply_pending_properties(block, change);
        } else {
            self.pending_properties.insert(self.context.clone(), block);
        }
        true
    }

    fn enter_context(&mut self, context: Context, change: &mut BufferChange)
        requires
            old(change)@ == buffer::no_change(),
            old(self).counted(),
        ensures
            (final(self)@, final(change)@) == old(self)@.in_context(context@),
            final(self).counted(),
            final(self).source_config == old(self).source_config,
    {
        self.context = context;
        if !self.last_sequences.contains_key(&self.context) && self.last_sequences.len()
            >= MAX_CONTEXTS {
            // Forget inference, never retained records, at the context budget.
            self.last_sequences.clear();
            self.pending_properties.clear();
            self.completed_property_blocks.clear();
            self.active_source.clear();
            change.notice = Some("source context limit reached; multiline inference reset");
            assert(text::views(self.completed_property_blocks@) =~= Seq::<CompletedView>::empty());
        }
    }

    /// Reads a line of the first stream.
    pub fn push_line(&mut self, line: String) -> (change: BufferChange)
        requires
            old(self).wf(),
            old(self)@.next < u64::MAX,
        ensures
            (final(self)@, change@) == old(self)@.with_line(0, None, line@),
            final(self).wf(),
            final(self).source_config == old(self).source_config,
            final(self)@.next <= old(self)@.next + 1,
            keep::accounts(old(self)@.events, final(self)@.events, change@),
    {
        self.push_source_line(0, None, line)
    }

    /// Reads a line that a command wrote to a stream.
    pub fn push_source_line(&mut self, stream: u64, source: Option<String>, line: String) -> (change:
        BufferChange)
        requires
            old(self).wf(),
            old(self)@.next < u64::MAX,
        ensures
            (final(self)@, change@) == old(self)@.with_line(stream, text::opt_view(source), line@),
            final(self).wf(),
            final(self).source_config == old(self).source_config,
            final(self)@.next <= old(self)@.next + 1,
            keep::accounts(old(self)@.events, final(self)@.events, change@),
    {
        proof {
            keep::law_line_keeps_buffer_valid(self@, stream, text::opt_view(source), line@);
            keep::law_line_is_accounted_for(self@, stream, text::opt_view(source), line@);
        }
        let line = record_line(line);
        let parsed = self.interpreter.parse_source_line(line.as_str());
        let prefix = if parsed.source_explicit {
            parsed.source
        } else {
            String::new()
        };
        let context = Context { stream, channel: source, prefix };
        let mut change = BufferChange::default();
        proof {
            keep::lemma_in_context(self@, context@);
        }
        self.enter_context(context, &mut change);
        self.push_record(line, &mut change);
        change
    }

    fn push_record(&mut self, line: String, change: &mut BufferChange)
        requires
            old(self).wf(),
            old(self)@.has_room(),
            old(self)@.next < u64::MAX,
            old(change)@.appended is None,
            old(change)@.removed.len() == 0,
            old(change)@.updated.len() == 0,
        ensures
            (final(self)@, final(change)@) == old(self)@.with_record(line@, old(change)@),
            final(self).counted(),
            final(self).source_config == old(self).source_config,
    {
        proof {
            keep::lemma_with_pending(self@, line@, change@);
        }
        if self.push_pending_property_line(line.as_str(), change) {
            return ;
        }
        proof {
            keep::lemma_unchanged_accounts(self@.events, change@);
            keep::lemma_context_kept(self@, line@, change@);
        }
        match self.interpreter.property_block_header(line.as_str()) {
            Some(header) => {
                match self.property_target_sequence(&header) {
                    Some(target_sequence) => {
                        change.consumed_by = Some(target_sequence);
                        self.pending_properties.insert(
                            self.context.clone(),
                            PendingPropertyBlock::new(target_sequence, None),
                        );
                        if self.own_event().is_none() {
                            self.last_sequences.insert(
                                self.context.clone(),
                                LastEvent { sequence: target_sequence, own: false },
                            );
                        }
                    },
                    None => {
                        match self.push_event(line, change) {
                            Some(target_sequence) => {
                                self.pending_properties.insert(
                                    self.context.clone(),
                                    PendingPropertyBlock::new(target_sequence, Some(header)),
                                );
                            },
                            None => {},
                        }
                    },
                }
            },
            None => {
                let _ = self.push_event(line, change);
            },
        }
    }
}

/// More contexts have no fewer events.
proof fn lemma_more_events(
    last: Seq<(ContextView, LastEvent)>,
    n: int,
    stream: u64,
    channel: Option<Seq<char>>,
)
    requires
        0 <= n <= last.len(),
    ensures
        buffer::own_events(last.take(n), stream, channel).len() <= buffer::own_events(
            last,
            stream,
            channel,
        ).len(),
    decreases last.len(),
{
    if n == last.len() {
        assert(last.take(n) =~= last);
    } else {
        let front = last.drop_last();
        assert(front.take(n) =~= last.take(n));
        lemma_more_events(front, n, stream, channel);
    }
}

/// Cuts a line to the bytes that are kept.
fn record_line(line: String) -> (result: String)
    ensures
        result@ == buffer::record(line@),
{
    if str_len(line.as_str()) > MAX_RECORD_BYTES {
        let chars = chars_of(line.as_str());
        let kept = truncate_chars(chars.as_slice(), MAX_RECORD_BYTES);
        let mut out: Vec<char> = Vec::new();
        text::push_chars(&mut out, kept);
        assert(out@ =~= kept@);
        push_str(&mut out, " [loggle: record truncated]");
        string_of(out.as_slice())
    } else {
        line
    }
}

} // verus!
