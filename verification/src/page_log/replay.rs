//! Reading a page again: its lines put together into records.
use crate::buffer::pending::PendingView;
use crate::buffer::{self, keep, BufferView, LogBuffer};
use crate::filter::{FilterView, LogFilter};
use crate::model::{EventView, LogEvent, SourceConfig};
use crate::text::split::{self, join_strings};
use crate::text;
use std::collections::HashMap;
use vstd::prelude::*;

verus! {

broadcast use {text::lemma_views_push, vstd::std_specs::hash::group_hash_axioms};

/// An event with all the lines that it was read from.
#[derive(Debug)]
pub struct ParsedLogPageRecord {
    pub event: LogEvent,
    pub raw: String,
}

/// What a record is.
pub struct RecordView {
    pub event: EventView,
    pub raw: Seq<char>,
}

impl View for ParsedLogPageRecord {
    type V = RecordView;

    open spec fn view(&self) -> RecordView {
        RecordView { event: self.event@, raw: self.raw@ }
    }
}

/// The state of reading: the events so far, the groups of lines, the group that
/// each event was read from, and the group that lines without an event of their
/// own belong to.
pub struct Replay {
    pub buffer: BufferView,
    pub groups: Seq<Seq<Seq<char>>>,
    pub group_of: Map<u64, usize>,
    pub current: Option<int>,
}

/// The groups of events that are gone, in the order in which they went, and the
/// groups of those that are left.
pub open spec fn released(group_of: Map<u64, usize>, removed: Seq<u64>) -> (
    Map<u64, usize>,
    Seq<usize>,
)
    decreases removed.len(),
{
    if removed.len() == 0 {
        (group_of, Seq::empty())
    } else {
        let (left, gone) = released(group_of, removed.drop_last());
        let sequence = removed.last();
        if left.contains_key(sequence) {
            (
                left.remove(sequence),
                if gone.contains(left[sequence]) {
                    gone
                } else {
                    gone.push(left[sequence])
                },
            )
        } else {
            (left, gone)
        }
    }
}

/// The lines of some groups.
pub open spec fn lines_of(groups: Seq<Seq<Seq<char>>>, indexes: Seq<usize>) -> Seq<Seq<char>>
    decreases indexes.len(),
{
    if indexes.len() == 0 {
        Seq::empty()
    } else {
        lines_of(groups, indexes.drop_last()) + groups[indexes.last() as int]
    }
}

impl Replay {
    /// Before the first line.
    pub open spec fn start(fields: Seq<Seq<char>>) -> Replay {
        Replay {
            buffer: buffer::empty(usize::MAX as int, fields),
            groups: Seq::empty(),
            group_of: Map::empty(),
            current: None,
        }
    }

    /// A line more. A line with an event of its own begins a group, with the
    /// lines of the events that it took the place of; any other belongs to the
    /// group before it.
    pub open spec fn read(self, line: Seq<char>) -> Replay {
        let (buffer, change) = self.buffer.with_line(0, None, line);
        let (left, gone) = released(self.group_of, change.removed);
        match change.appended {
            Some(sequence) => Replay {
                buffer,
                groups: self.groups.push(lines_of(self.groups, gone).push(line)),
                group_of: left.insert(sequence, self.groups.len() as usize),
                current: Some(self.groups.len() as int),
            },
            None => Replay {
                buffer,
                groups: match self.current {
                    Some(index) => self.groups.update(index, self.groups[index].push(line)),
                    None => self.groups,
                },
                group_of: left,
                ..self
            },
        }
    }

    /// The record of an event.
    pub open spec fn record(self, event: EventView) -> RecordView {
        RecordView {
            event,
            raw: split::join(self.groups[self.group_of[event.sequence] as int], "\n"@),
        }
    }

    /// The records of some events.
    pub open spec fn records(self, events: Seq<EventView>) -> Seq<RecordView>
        decreases events.len(),
    {
        if events.len() == 0 {
            Seq::empty()
        } else if self.group_of.contains_key(events.last().sequence) {
            self.records(events.drop_last()).push(self.record(events.last()))
        } else {
            self.records(events.drop_last())
        }
    }

    /// Every group that is spoken of is there.
    pub open spec fn grounded(self) -> bool {
        &&& within(self.group_of, self.groups.len() as int)
        &&& self.current is Some ==> 0 <= self.current->0 < self.groups.len()
    }
}

/// Reading lines, one after the other.
pub open spec fn replayed(fields: Seq<Seq<char>>, lines: Seq<Seq<char>>) -> Replay
    decreases lines.len(),
{
    if lines.len() == 0 {
        Replay::start(fields)
    } else {
        replayed(fields, lines.drop_last()).read(lines.last())
    }
}

/// The records of a page.
pub open spec fn page_records(fields: Seq<Seq<char>>, lines: Seq<Seq<char>>) -> Seq<RecordView> {
    let replay = replayed(fields, lines);
    replay.records(replay.buffer.events)
}

/// The records that a filter lets through.
pub open spec fn matching(records: Seq<RecordView>, filter: FilterView) -> Seq<RecordView>
    decreases records.len(),
{
    if records.len() == 0 {
        records
    } else if filter.matches(records.last().event) {
        matching(records.drop_last(), filter).push(records.last())
    } else {
        matching(records.drop_last(), filter)
    }
}

/// The last of some items.
pub open spec fn last_of<T>(items: Seq<T>, count: int) -> Seq<T> {
    if items.len() <= count {
        items
    } else {
        items.skip(items.len() - count)
    }
}

/// The views of groups of lines.
pub open spec fn group_views(groups: Seq<Vec<String>>) -> Seq<Seq<Seq<char>>> {
    Seq::new(groups.len(), |i: int| text::views(groups[i]@))
}

/// Whether every event is in one of so many groups.
pub open spec fn within(group_of: Map<u64, usize>, count: int) -> bool {
    forall|sequence: u64| #[trigger]
        group_of.contains_key(sequence) ==> group_of[sequence] < count
}

proof fn lemma_released(group_of: Map<u64, usize>, removed: Seq<u64>, count: int)
    requires
        within(group_of, count),
    ensures
        within(released(group_of, removed).0, count),
        ({
            let gone = released(group_of, removed).1;
            forall|i: int| 0 <= i < gone.len() ==> (#[trigger] gone[i]) < count
        }),
    decreases removed.len(),
{
    if removed.len() > 0 {
        lemma_released(group_of, removed.drop_last(), count);
        let (left, gone) = released(group_of, removed.drop_last());
        let (left_after, gone_after) = released(group_of, removed);
        assert forall|sequence: u64| #[trigger]
            left_after.contains_key(sequence) implies left_after[sequence] < count by {
            assert(left.contains_key(sequence));
        }
        assert forall|i: int| 0 <= i < gone_after.len() implies (#[trigger] gone_after[i])
            < count by {
            if i < gone.len() {
                assert(gone_after[i] == gone[i]);
            }
        }
    }
}

/// Takes the groups of events that are gone, and gives their lines.
pub fn take_removed_group_lines(
    groups: &Vec<Vec<String>>,
    group_of_sequence: &mut HashMap<u64, usize>,
    removed: &Vec<u64>,
) -> (result: Vec<String>)
    requires
        within(old(group_of_sequence)@, groups@.len() as int),
    ensures
        final(group_of_sequence)@ == released(old(group_of_sequence)@, removed@).0,
        text::views(result@) == lines_of(
            group_views(groups@),
            released(old(group_of_sequence)@, removed@).1,
        ),
        within(final(group_of_sequence)@, groups@.len() as int),
{
    let mut indexes: Vec<usize> = Vec::new();
    let mut i: usize = 0;
    let ghost before = group_of_sequence@;
    assert(removed@.take(0) =~= Seq::<u64>::empty());
    assert(indexes@ =~= Seq::<usize>::empty());
    while i < removed.len()
        invariant
            i <= removed@.len(),
            (group_of_sequence@, indexes@) == released(before, removed@.take(i as int)),
        decreases removed@.len() - i,
    {
        assert(removed@.take(i + 1).drop_last() =~= removed@.take(i as int));
        match group_of_sequence.remove(&removed[i]) {
            Some(index) => {
                if !contains_index(&indexes, index) {
                    indexes.push(index);
                }
            },
            None => {
                assert(group_of_sequence@ =~= released(before, removed@.take(i as int)).0);
            },
        }
        i += 1;
    }
    assert(removed@.take(i as int) =~= removed@);
    proof {
        lemma_released(before, removed@, groups@.len() as int);
        assert(indexes@ == released(before, removed@).1);
    }
    let mut lines: Vec<String> = Vec::new();
    let mut k: usize = 0;
    assert(indexes@.take(0) =~= Seq::<usize>::empty());
    assert(text::views(lines@) =~= Seq::<Seq<char>>::empty());
    while k < indexes.len()
        invariant
            k <= indexes@.len(),
            forall|j: int| 0 <= j < indexes@.len() ==> (#[trigger] indexes@[j]) < groups@.len(),
            text::views(lines@) == lines_of(group_views(groups@), indexes@.take(k as int)),
        decreases indexes@.len() - k,
    {
        assert(indexes@.take(k + 1).drop_last() =~= indexes@.take(k as int));
        append_lines(&mut lines, &groups[indexes[k]]);
        k += 1;
    }
    assert(indexes@.take(k as int) =~= indexes@);
    lines
}

fn contains_index(indexes: &Vec<usize>, index: usize) -> (result: bool)
    ensures
        result == indexes@.contains(index),
{
    let mut i: usize = 0;
    while i < indexes.len()
        invariant
            i <= indexes@.len(),
            forall|j: int| 0 <= j < i ==> indexes@[j] != index,
        decreases indexes@.len() - i,
    {
        if indexes[i] == index {
            return true;
        }
        i += 1;
    }
    false
}

fn append_lines(lines: &mut Vec<String>, more: &Vec<String>)
    ensures
        text::views(final(lines)@) == text::views(old(lines)@) + text::views(more@),
{
    let ghost before = text::views(lines@);
    let ghost all = text::views(more@);
    let mut i: usize = 0;
    assert(before + all.take(0) =~= before);
    while i < more.len()
        invariant
            i <= more@.len(),
            all == text::views(more@),
            text::views(lines@) == before + all.take(i as int),
        decreases more@.len() - i,
    {
        lines.push(more[i].clone());
        assert(before + all.take(i + 1) =~= (before + all.take(i as int)).push(all[i as int]));
        i += 1;
    }
    assert(all.take(i as int) =~= all);
}

/// Puts the lines of a page together into records.
#[verifier::spinoff_prover]
#[verifier::rlimit(60)]
pub fn parsed_log_page_records(lines: &[String], source_config: &SourceConfig) -> (result: Vec<
    ParsedLogPageRecord,
>)
    ensures
        text::views(result@) == page_records(source_config@.fields, text::views(lines@)),
{
    let mut buffer = LogBuffer::unbounded_with_source_config(source_config.clone());
    let mut groups: Vec<Vec<String>> = Vec::new();
    let mut group_of_sequence: HashMap<u64, usize> = HashMap::new();
    let mut current_group: Option<usize> = None;
    let ghost all = text::views(lines@);
    let ghost fields = source_config@.fields;
    let mut i: usize = 0;
    assert(all.take(0) =~= Seq::<Seq<char>>::empty());
    assert(group_views(groups@) =~= Seq::<Seq<Seq<char>>>::empty());
    assert(group_of_sequence@ =~= Map::<u64, usize>::empty());
    while i < lines.len()
        invariant
            i <= lines@.len(),
            all == text::views(lines@),
            buffer.wf(),
            buffer@.next <= i,
            groups@.len() <= i,
            ({
                let replay = replayed(fields, all.take(i as int));
                &&& replay.buffer == buffer@
                &&& replay.groups == group_views(groups@)
                &&& replay.group_of == group_of_sequence@
                &&& replay.current == match current_group {
                    Some(index) => Some(index as int),
                    None => None,
                }
                &&& replay.grounded()
            }),
        decreases lines@.len() - i,
    {
        let ghost replay = replayed(fields, all.take(i as int));
        let ghost next = replayed(fields, all.take(i + 1));
        assert(all.take(i + 1).drop_last() =~= all.take(i as int));
        assert(next == replay.read(lines@[i as int]@));
        let line = lines[i].clone();
        let change = buffer.push_line(line.clone());
        let removed_group_lines = take_removed_group_lines(
            &groups,
            &mut group_of_sequence,
            &change.removed,
        );
        let ghost left = group_of_sequence@;
        let ghost before = groups@;
        match change.appended {
            Some(sequence) => {
                let index = groups.len();
                let mut group = removed_group_lines;
                group.push(line);
                groups.push(group);
                assert(group_views(groups@) =~= group_views(before).push(text::views(group@)));
                group_of_sequence.insert(sequence, index);
                current_group = Some(index);
                assert(next.group_of == left.insert(sequence, index));
            },
            None => {
                match current_group {
                    Some(index) => {
                        groups[index].push(line);
                        assert(group_views(groups@) =~= group_views(before).update(
                            index as int,
                            group_views(before)[index as int].push(line@),
                        ));
                    },
                    None => {},
                }
            },
        }
        i += 1;
    }
    assert(all.take(i as int) =~= all);
    let ghost replay = replayed(fields, all);
    let ghost events = buffer@.events;
    let mut records: Vec<ParsedLogPageRecord> = Vec::new();
    let mut k: usize = 0;
    assert(events.take(0) =~= Seq::<EventView>::empty());
    assert(text::views(records@) =~= Seq::<RecordView>::empty());
    while k < buffer.events.len()
        invariant
            k <= buffer.events@.len(),
            events == text::views(buffer.events@),
            replay.groups == group_views(groups@),
            replay.group_of == group_of_sequence@,
            replay.grounded(),
            text::views(records@) == replay.records(events.take(k as int)),
        decreases buffer.events@.len() - k,
    {
        assert(events.take(k + 1).drop_last() =~= events.take(k as int));
        let event = &buffer.events[k];
        match group_of_sequence.get(&event.sequence) {
            Some(index) => {
                let record = ParsedLogPageRecord {
                    event: event.clone(),
                    raw: join_strings(&groups[*index], "\n"),
                };
                assert(record@ == replay.record(events[k as int]));
                records.push(record);
            },
            None => {},
        }
        k += 1;
    }
    assert(events.take(k as int) =~= events);
    records
}

/// The last records that a filter lets through, in their order.
pub fn tail_matching_records<'a>(
    records: &'a Vec<ParsedLogPageRecord>,
    filter: &LogFilter,
    line_count: usize,
) -> (result: Vec<&'a ParsedLogPageRecord>)
    ensures
        text::views(result@) == last_of(
            matching(text::views(records@), filter@),
            line_count as int,
        ),
{
    let ghost all = text::views(records@);
    let mut found: Vec<&'a ParsedLogPageRecord> = Vec::new();
    let mut i: usize = 0;
    assert(text::views(found@) =~= all.take(0));
    while i < records.len()
        invariant
            i <= records@.len(),
            all == text::views(records@),
            text::views(found@) == matching(all.take(i as int), filter@),
        decreases records@.len() - i,
    {
        assert(all.take(i + 1).drop_last() =~= all.take(i as int));
        if filter.matches(&records[i].event) {
            found.push(&records[i]);
        }
        i += 1;
    }
    assert(all.take(i as int) =~= all);
    let ghost whole = text::views(found@);
    assert(whole.len() == found@.len());
    if found.len() <= line_count {
        return found;
    }
    let mut k: usize = found.len() - line_count;
    let ghost start = k as int;
    let mut result: Vec<&'a ParsedLogPageRecord> = Vec::new();
    assert(text::views(result@) =~= whole.subrange(start, start));
    while k < found.len()
        invariant
            start <= k <= found@.len(),
            0 <= start,
            whole == text::views(found@),
            text::views(result@) == whole.subrange(start, k as int),
        decreases found@.len() - k,
    {
        result.push(found[k]);
        assert(whole.subrange(start, k + 1) =~= whole.subrange(start, k as int).push(
            whole[k as int],
        ));
        k += 1;
    }
    assert(whole.subrange(start, whole.len() as int) =~= whole.skip(start));
    result
}

/// The last lines.
pub fn tail_lines(lines: &[String], line_count: usize) -> (result: Vec<String>)
    ensures
        text::views(result@) == last_of(text::views(lines@), line_count as int),
{
    let ghost whole = text::views(lines@);
    let mut k: usize = lines.len().saturating_sub(line_count);
    let ghost start = k as int;
    let mut result: Vec<String> = Vec::new();
    assert(text::views(result@) =~= whole.subrange(start, start));
    while k < lines.len()
        invariant
            start <= k <= lines@.len(),
            0 <= start,
            whole == text::views(lines@),
            text::views(result@) == whole.subrange(start, k as int),
        decreases lines@.len() - k,
    {
        result.push(lines[k].clone());
        assert(whole.subrange(start, k + 1) =~= whole.subrange(start, k as int).push(
            whole[k as int],
        ));
        k += 1;
    }
    assert(whole.subrange(start, whole.len() as int) =~= last_of(whole, line_count as int));
    result
}

// ---------------------------------------------------------------------------
// Laws
// ---------------------------------------------------------------------------

/// What is left of the groups is that of the events that are not gone.
proof fn lemma_left(group_of: Map<u64, usize>, removed: Seq<u64>, sequence: u64)
    ensures
        released(group_of, removed).0.contains_key(sequence) <==> group_of.contains_key(sequence)
            && !removed.contains(sequence),
    decreases removed.len(),
{
    if removed.len() > 0 {
        let front = removed.drop_last();
        lemma_left(group_of, front, sequence);
        if front.contains(sequence) {
            let i = choose|i: int| 0 <= i < front.len() && front[i] == sequence;
            assert(removed[i] == sequence);
        }
        if removed.contains(sequence) && removed.last() != sequence {
            let i = choose|i: int| 0 <= i < removed.len() && removed[i] == sequence;
            assert(front[i] == sequence);
        }
        if removed.last() == sequence {
            assert(removed[removed.len() - 1] == sequence);
        }
    }
}

/// While a page is read its buffer stays valid, and every event has a group.
proof fn lemma_replay(fields: Seq<Seq<char>>, lines: Seq<Seq<char>>)
    requires
        lines.len() < u64::MAX,
    ensures
        ({
            let replay = replayed(fields, lines);
            &&& replay.buffer.valid()
            &&& replay.buffer.next <= lines.len()
            &&& forall|i: int|
                0 <= i < replay.buffer.events.len() ==> replay.group_of.contains_key(
                    (#[trigger] replay.buffer.events[i]).sequence,
                )
        }),
    decreases lines.len(),
{
    if lines.len() > 0 {
        lemma_replay(fields, lines.drop_last());
        let before = replayed(fields, lines.drop_last());
        let line = lines.last();
        let after = before.read(line);
        let (buffer, change) = before.buffer.with_line(0, None, line);
        keep::law_line_keeps_buffer_valid(before.buffer, 0, None, line);
        keep::law_line_is_accounted_for(before.buffer, 0, None, line);
        assert forall|i: int| 0 <= i < buffer.events.len() implies after.group_of.contains_key(
            (#[trigger] buffer.events[i]).sequence,
        ) by {
            let sequence = buffer.events[i].sequence;
            buffer::lemma_sequence_at(buffer.events, i);
            assert(buffer::holds(buffer.events, sequence));
            if change.appended != Some(sequence) {
                assert(buffer::holds(before.buffer.events, sequence));
                buffer::lemma_sequence_index(before.buffer.events, sequence);
                let at = buffer::sequence_index(before.buffer.events, sequence);
                assert(before.buffer.events[at].sequence == sequence);
                assert(!change.removed.contains(sequence));
                lemma_left(before.group_of, change.removed, sequence);
            }
        }
    }
}

/// Every event that is read from a page has a record, and no record is without
/// one: the records are those of the events, in their order.
pub proof fn law_every_event_has_a_record(fields: Seq<Seq<char>>, lines: Seq<Seq<char>>)
    requires
        lines.len() < u64::MAX,
    ensures
        page_records(fields, lines).len() == replayed(fields, lines).buffer.events.len(),
        forall|i: int|
            0 <= i < page_records(fields, lines).len() ==> (#[trigger] page_records(
                fields,
                lines,
            )[i]).event == replayed(fields, lines).buffer.events[i],
{
    lemma_replay(fields, lines);
    let replay = replayed(fields, lines);
    lemma_all_recorded(replay, replay.buffer.events);
}

/// No line of a page is lost: each is in the record of some event.
pub proof fn law_no_line_is_lost(fields: Seq<Seq<char>>, lines: Seq<Seq<char>>, j: int)
    requires
        lines.len() < usize::MAX,
        lines.len() < u64::MAX,
        0 <= j < lines.len(),
    ensures
        ({
            let replay = replayed(fields, lines);
            exists|i: int|
                0 <= i < replay.buffer.events.len() && replay.group_of.contains_key(
                    (#[trigger] replay.buffer.events[i]).sequence,
                ) && replay.groups[replay.group_of[replay.buffer.events[i].sequence] as int].contains(
                    lines[j],
                )
        }),
{
    let replay = replayed(fields, lines);
    lemma_kept(fields, lines);
    assert(keeps(replay, lines[j]));
    let sequence = choose|sequence: u64| #[trigger]
        replay.group_of.contains_key(sequence)
            && replay.groups[replay.group_of[sequence] as int].contains(lines[j]);
    assert(buffer::holds(replay.buffer.events, sequence));
    buffer::lemma_sequence_index(replay.buffer.events, sequence);
    let i = buffer::sequence_index(replay.buffer.events, sequence);
    assert(replay.buffer.events[i].sequence == sequence);
}

/// Whether a line is in the group of an event.
spec fn keeps(replay: Replay, line: Seq<char>) -> bool {
    exists|sequence: u64| #[trigger]
        replay.group_of.contains_key(sequence)
            && replay.groups[replay.group_of[sequence] as int].contains(line)
}

/// Whether a group is that of an event.
spec fn owned(replay: Replay, group: int) -> bool {
    exists|sequence: u64| #[trigger]
        replay.group_of.contains_key(sequence) && replay.group_of[sequence] == group
}

/// What holds while the lines of a page are read: the groups are those of the
/// events that are there, and hold all lines.
spec fn complete(replay: Replay, lines: Seq<Seq<char>>) -> bool {
    &&& replay.buffer.valid()
    &&& replay.buffer.capacity == usize::MAX
    &&& replay.buffer.next <= lines.len()
    &&& replay.buffer.events.len() <= lines.len()
    &&& replay.groups.len() <= lines.len()
    &&& replay.grounded()
    &&& forall|sequence: u64| #[trigger]
        replay.group_of.contains_key(sequence) ==> buffer::holds(replay.buffer.events, sequence)
    &&& lines.len() == 0 ==> replay.buffer.pending.len() == 0 && replay.buffer.last.len() == 0
    &&& lines.len() > 0 ==> replay.current is Some && owned(replay, replay.current->0)
    &&& forall|j: int| 0 <= j < lines.len() ==> keeps(replay, #[trigger] lines[j])
}

proof fn lemma_kept(fields: Seq<Seq<char>>, lines: Seq<Seq<char>>)
    requires
        lines.len() < usize::MAX,
        lines.len() < u64::MAX,
    ensures
        complete(replayed(fields, lines), lines),
    decreases lines.len(),
{
    if lines.len() > 0 {
        let front = lines.drop_last();
        lemma_kept(fields, front);
        let before = replayed(fields, front);
        lemma_read_keeps_lines(before, front, lines.last());
        assert(front.push(lines.last()) =~= lines);
    } else {
        lemma_replay(fields, lines);
    }
}

proof fn lemma_read_keeps_lines(before: Replay, front: Seq<Seq<char>>, line: Seq<char>)
    requires
        complete(before, front),
        front.len() + 1 < usize::MAX,
        front.len() + 1 < u64::MAX,
    ensures
        complete(before.read(line), front.push(line)),
{
    let after = before.read(line);
    let lines = front.push(line);
    let (b, change) = before.buffer.with_line(0, None, line);
    keep::law_line_keeps_buffer_valid(before.buffer, 0, None, line);
    lemma_unbounded(before.buffer, line);
    lemma_read_owns(before, line);
    match change.appended {
        Some(sequence) => {
            if before.group_of.contains_key(sequence) {
                let at = buffer::sequence_index(before.buffer.events, sequence);
                buffer::lemma_sequence_index(before.buffer.events, sequence);
                assert(before.buffer.events[at].sequence < before.buffer.next);
            }
            assert(after.group_of.contains_key(sequence));
            let group = after.groups[after.group_of[sequence] as int];
            assert(group[group.len() - 1] == line);
            assert(keeps(after, line));
            assert(owned(after, after.current->0));
        },
        None => {
            let group = before.current->0;
            let sequence = choose|sequence: u64| #[trigger]
                before.group_of.contains_key(sequence) && before.group_of[sequence] == group;
            assert(change.removed =~= Seq::<u64>::empty());
            assert(after.group_of == before.group_of);
            assert(after.group_of.contains_key(sequence));
            assert(after.groups[group][before.groups[group].len() as int] == line);
            assert(keeps(after, line));
            assert(owned(after, group));
        },
    }
    assert forall|j: int| 0 <= j < lines.len() implies keeps(after, #[trigger] lines[j]) by {
        if j < front.len() {
            let old = front[j];
            assert(lines[j] == old);
            assert(keeps(before, old));
            let sequence = choose|sequence: u64| #[trigger]
                before.group_of.contains_key(sequence)
                    && before.groups[before.group_of[sequence] as int].contains(old);
            lemma_still_kept(before, after, change, line, sequence, old);
        }
    }
}

proof fn lemma_read_owns(before: Replay, line: Seq<char>)
    requires
        before.buffer.valid(),
        before.buffer.next < u64::MAX,
        before.groups.len() < usize::MAX,
        before.grounded(),
        forall|sequence: u64| #[trigger]
            before.group_of.contains_key(sequence) ==> buffer::holds(
                before.buffer.events,
                sequence,
            ),
        match before.buffer.with_line(0, None, line).1.appended {
            Some(appended) => !before.buffer.with_line(0, None, line).1.removed.contains(appended),
            None => true,
        },
    ensures
        before.read(line).grounded(),
        forall|sequence: u64| #[trigger]
            before.read(line).group_of.contains_key(sequence) ==> buffer::holds(
                before.read(line).buffer.events,
                sequence,
            ),
{
    let after = before.read(line);
    let (b, change) = before.buffer.with_line(0, None, line);
    let (left, gone) = released(before.group_of, change.removed);
    keep::law_line_is_accounted_for(before.buffer, 0, None, line);
    lemma_released(before.group_of, change.removed, before.groups.len() as int);
    assert forall|sequence: u64| #[trigger]
        after.group_of.contains_key(sequence) implies buffer::holds(b.events, sequence)
        && after.group_of[sequence] < after.groups.len() by {
        lemma_left(before.group_of, change.removed, sequence);
        if left.contains_key(sequence) {
            let at = buffer::sequence_index(before.buffer.events, sequence);
            buffer::lemma_sequence_index(before.buffer.events, sequence);
            assert(before.buffer.events[at].sequence == sequence);
        }
    }
}

proof fn lemma_still_kept(
    before: Replay,
    after: Replay,
    change: buffer::ChangeView,
    line: Seq<char>,
    sequence: u64,
    old: Seq<char>,
)
    requires
        before.grounded(),
        before.group_of.contains_key(sequence),
        before.groups[before.group_of[sequence] as int].contains(old),
        before.groups.len() < usize::MAX,
        after == before.read(line),
        change == before.buffer.with_line(0, None, line).1,
        change.appended is None ==> change.removed.len() == 0,
        match change.appended {
            Some(appended) => !before.group_of.contains_key(appended),
            None => true,
        },
    ensures
        keeps(after, old),
{
    let (left, gone) = released(before.group_of, change.removed);
    let group = before.group_of[sequence] as int;
    let lines = before.groups[group];
    let k = choose|k: int| 0 <= k < lines.len() && lines[k] == old;
    lemma_left(before.group_of, change.removed, sequence);
    lemma_left_value(before.group_of, change.removed, sequence);
    if change.removed.contains(sequence) {
        let appended = change.appended->0;
        let whole = lines_of(before.groups, gone).push(line);
        lemma_lines_of(before.groups, gone, group as usize, old);
        let m = choose|m: int|
            0 <= m < lines_of(before.groups, gone).len() && lines_of(before.groups, gone)[m] == old;
        assert(whole[m] == old);
        assert(after.group_of.contains_key(appended));
        assert(after.groups[after.group_of[appended] as int] == whole);
    } else {
        assert(after.group_of.contains_key(sequence));
        assert(after.groups[group][k] == old);
    }
}

proof fn lemma_left_value(group_of: Map<u64, usize>, removed: Seq<u64>, sequence: u64)
    ensures
        ({
            let (left, gone) = released(group_of, removed);
            &&& left.contains_key(sequence) ==> left[sequence] == group_of[sequence]
            &&& group_of.contains_key(sequence) && removed.contains(sequence) ==> gone.contains(
                group_of[sequence],
            )
        }),
    decreases removed.len(),
{
    if removed.len() > 0 {
        let front = removed.drop_last();
        let last = removed.last();
        let (left, gone) = released(group_of, front);
        let after = released(group_of, removed).1;
        lemma_left_value(group_of, front, sequence);
        lemma_left(group_of, front, sequence);
        if group_of.contains_key(sequence) && removed.contains(sequence) {
            let value = group_of[sequence];
            if front.contains(sequence) {
                let k = choose|k: int| 0 <= k < gone.len() && gone[k] == value;
                assert(after[k] == value);
            } else {
                let k = choose|k: int| 0 <= k < removed.len() && removed[k] == sequence;
                if k < front.len() {
                    assert(front[k] == sequence);
                }
                assert(last == sequence);
                assert(left.contains_key(sequence));
                if !gone.contains(value) {
                    assert(after[gone.len() as int] == value);
                }
            }
        }
    }
}

proof fn lemma_lines_of(
    groups: Seq<Seq<Seq<char>>>,
    indexes: Seq<usize>,
    index: usize,
    line: Seq<char>,
)
    requires
        indexes.contains(index),
        groups[index as int].contains(line),
    ensures
        lines_of(groups, indexes).contains(line),
    decreases indexes.len(),
{
    let front = indexes.drop_last();
    let all = lines_of(groups, indexes);
    let head = lines_of(groups, front);
    let i = choose|i: int| 0 <= i < indexes.len() && indexes[i] == index;
    if i < front.len() {
        assert(front[i] == index);
        lemma_lines_of(groups, front, index, line);
        let k = choose|k: int| 0 <= k < head.len() && head[k] == line;
        assert(all[k] == line);
    } else {
        let tail = groups[index as int];
        let k = choose|k: int| 0 <= k < tail.len() && tail[k] == line;
        assert(all[head.len() + k] == line);
    }
}

/// In a buffer without a limit an event leaves only for one that comes, and the
/// first line becomes an event.
proof fn lemma_unbounded(b: BufferView, line: Seq<char>)
    requires
        b.valid(),
        b.capacity == usize::MAX,
        b.events.len() < usize::MAX,
        b.next < u64::MAX,
    ensures
        ({
            let (after, change) = b.with_line(0, None, line);
            &&& after.capacity == usize::MAX
            &&& after.events.len() <= b.events.len() + 1
            &&& change.appended is None ==> change.removed.len() == 0
            &&& match change.appended {
                Some(appended) => !change.removed.contains(appended) && appended == b.next,
                None => true,
            }
            &&& b.pending.len() == 0 && b.last.len() == 0 ==> change.appended is Some
        }),
{
    let kept = buffer::record(line);
    let context = BufferView::context_of(0, None, kept);
    let (here, change) = b.in_context(context);
    let (open, told, taken) = here.with_pending(kept, change);
    let left = BufferView { pending: crate::table::without(here.pending, context), ..here };
    match crate::table::lookup(here.pending, context) {
        Some(block) => {
            lemma_block_unbounded(
                left,
                block.with_line(kept),
                buffer::ChangeView { consumed_by: Some(block.target), ..change },
            );
        },
        None => {},
    }
    assert(taken ==> told.appended is None && told.removed.len() == 0 && open.capacity
        == usize::MAX && open.events.len() == b.events.len());
    assert(!taken ==> told.appended is None && told.removed.len() == 0 && open.capacity
        == usize::MAX && open.events == b.events && open.next == b.next);
    if b.pending.len() == 0 && b.last.len() == 0 {
        crate::table::lemma_find(here.pending, context);
        crate::table::lemma_find(here.last, context);
        assert(buffer::own_events(here.last, context.stream, context.channel).len() == 0);
    }
    if !taken {
        lemma_event_unbounded(open, kept, told);
    }
}

proof fn lemma_event_unbounded(b: BufferView, line: Seq<char>, change: buffer::ChangeView)
    requires
        b.capacity == usize::MAX,
        b.events.len() < usize::MAX,
        0 <= b.next < u64::MAX,
        change.removed.len() == 0,
    ensures
        ({
            let (after, told, sequence) = b.with_event(line, change);
            &&& after.capacity == usize::MAX
            &&& after.events.len() <= b.events.len() + 1
            &&& told.appended == Some(b.next as u64)
            &&& !told.removed.contains(b.next as u64)
        }),
{
    let known = b.resolved(line).0;
    let (free, told, event) = b.taken_in(line, change);
    assert(known.events == b.events && known.next == b.next && known.capacity == b.capacity);
    assert(free == known && told == change);
    let sequence = event.sequence;
    assert(sequence == known.next as u64);
    let added = free.with_appended(event);
    let noted = buffer::ChangeView { appended: Some(sequence), ..change };
    assert(added.events.last() == event);
    let at = buffer::fitting_block(added.completed, added.context, event);
    keep::lemma_fitting_block(added.completed, added.context, event);
    let (folded, folding) = added.joined(noted);
    assert forall|gone: u64| #[trigger] folding.removed.contains(gone) implies gone != sequence by {
        let k = choose|k: int| 0 <= k < folding.removed.len() && folding.removed[k] == gone;
        assert(at < added.completed.len());
        assert(folding.removed == change.removed.push(added.completed[at].header_sequence));
        assert(k == 0);
    }
    let updated = crate::model::interpret::promoted(
        EventView { properties: added.completed[at].properties, ..event },
        b.fields,
    );
    buffer::lemma_sequence_index(
        added.events.update(added.events.len() - 1, updated),
        added.completed[at].header_sequence,
    );
    assert(folded.capacity == usize::MAX);
    assert(folded.events.len() <= added.events.len());
    assert(folded.trimmed(folding) == (folded, folding));
    assert(b.with_event(line, change) == (folded, folding, Some(sequence)));
}

proof fn lemma_block_unbounded(b: BufferView, block: PendingView, change: buffer::ChangeView)
    requires
        b.capacity == usize::MAX,
        change.removed.len() == 0,
        change.appended is None,
    ensures
        ({
            let (after, told) = b.with_block(block, change);
            &&& after.capacity == usize::MAX
            &&& after.events.len() == b.events.len()
            &&& told.removed.len() == 0
            &&& told.appended is None
        }),
{
    buffer::lemma_sequence_index(b.events, block.target);
    assert forall|other: BufferView, told: buffer::ChangeView|
        other.capacity == usize::MAX implies #[trigger] other.trimmed(told) == (other, told) by {}
    let (after, told) = b.with_block(block, change);
    match crate::model::property::object_of(split::join(block.lines, "\n"@)) {
        None => {},
        Some(properties) => {
            let index = buffer::sequence_index(b.events, block.target);
            if index < b.events.len() {
                assert(told.removed == change.removed);
            }
        },
    }
}

proof fn lemma_all_recorded(replay: Replay, events: Seq<EventView>)
    requires
        forall|i: int|
            0 <= i < events.len() ==> replay.group_of.contains_key(
                (#[trigger] events[i]).sequence,
            ),
    ensures
        replay.records(events).len() == events.len(),
        forall|i: int|
            0 <= i < events.len() ==> (#[trigger] replay.records(events)[i]).event == events[i],
    decreases events.len(),
{
    if events.len() > 0 {
        let front = events.drop_last();
        assert forall|i: int| 0 <= i < front.len() implies replay.group_of.contains_key(
            (#[trigger] front[i]).sequence,
        ) by {
            assert(events[i] == front[i]);
        }
        lemma_all_recorded(replay, front);
        assert(replay.group_of.contains_key(events[events.len() - 1].sequence));
        assert forall|i: int| 0 <= i < events.len() implies (#[trigger] replay.records(
            events,
        )[i]).event == events[i] by {
            if i < front.len() {
                assert(replay.records(events)[i] == replay.records(front)[i]);
            }
        }
    }
}

/// Every record that is let through matches.
pub proof fn lemma_matching(records: Seq<RecordView>, filter: FilterView, i: int)
    requires
        0 <= i < matching(records, filter).len(),
    ensures
        filter.matches(matching(records, filter)[i].event),
    decreases records.len(),
{
    if i < matching(records.drop_last(), filter).len() {
        lemma_matching(records.drop_last(), filter, i);
    }
}

/// The last records that match are at most as many as asked for, and all that
/// match where those are no more.
pub proof fn law_tail_is_bounded(records: Seq<RecordView>, filter: FilterView, count: int)
    requires
        count >= 0,
    ensures
        last_of(matching(records, filter), count).len() <= count,
        matching(records, filter).len() <= count ==> last_of(matching(records, filter), count)
            == matching(records, filter),
{
}

} // verus!
