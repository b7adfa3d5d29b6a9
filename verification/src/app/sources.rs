//! What is known of each source.
use crate::filter::contains_ignore_ascii_case;
use crate::model::{self, EventView, Level, LogEvent};
use crate::text;
use crate::text::order::{self, str_before};
use crate::text::same;
use std::collections::VecDeque;
use vstd::prelude::*;

verus! {

broadcast use text::lemma_views_push;

/// A source with its counts and its last event.
#[derive(Debug, PartialEq, Eq)]
pub struct SourceStatusRow {
    pub source: String,
    pub count: usize,
    pub warnings: usize,
    pub errors: usize,
    pub last_level: Level,
    pub last_sequence: u64,
}

/// What a source row is.
pub struct SourceRowView {
    pub source: Seq<char>,
    pub count: int,
    pub warnings: int,
    pub errors: int,
    pub last_level: Level,
    pub last_sequence: u64,
}

impl View for SourceStatusRow {
    type V = SourceRowView;

    open spec fn view(&self) -> SourceRowView {
        SourceRowView {
            source: self.source@,
            count: self.count as int,
            warnings: self.warnings as int,
            errors: self.errors as int,
            last_level: self.last_level,
            last_sequence: self.last_sequence,
        }
    }
}

impl Clone for SourceStatusRow {
    fn clone(&self) -> (result: Self)
        ensures
            result == *self,
    {
        SourceStatusRow {
            source: self.source.clone(),
            count: self.count,
            warnings: self.warnings,
            errors: self.errors,
            last_level: self.last_level,
            last_sequence: self.last_sequence,
        }
    }
}

/// Whether a level counts as an error.
pub open spec fn is_error(level: Level) -> bool {
    level == Level::Fatal || level == Level::Error
}

/// The row of a source without events.
pub open spec fn fresh_row(event: EventView) -> SourceRowView {
    SourceRowView {
        source: event.source,
        count: 0,
        warnings: 0,
        errors: 0,
        last_level: event.level,
        last_sequence: event.sequence,
    }
}

/// A row with another event.
pub open spec fn counted(row: SourceRowView, event: EventView) -> SourceRowView {
    SourceRowView {
        count: row.count + 1,
        warnings: row.warnings + if event.level == Level::Warn {
            1int
        } else {
            0int
        },
        errors: row.errors + if is_error(event.level) {
            1int
        } else {
            0int
        },
        last_level: event.level,
        last_sequence: event.sequence,
        ..row
    }
}

/// The place of a source among rows in order: behind those that come before it.
pub open spec fn row_place(rows: Seq<SourceRowView>, source: Seq<char>) -> int
    decreases rows.len(),
{
    if rows.len() == 0 || !order::before(rows[0].source, source) {
        0
    } else {
        1 + row_place(rows.drop_first(), source)
    }
}

/// The rows with another event.
pub open spec fn noted(rows: Seq<SourceRowView>, event: EventView) -> Seq<SourceRowView> {
    let i = row_place(rows, event.source);
    if i < rows.len() && rows[i].source == event.source {
        rows.update(i, counted(rows[i], event))
    } else {
        rows.insert(i, counted(fresh_row(event), event))
    }
}

/// The rows of the sources of some events, in the order of their names.
pub open spec fn source_rows(events: Seq<EventView>) -> Seq<SourceRowView>
    decreases events.len(),
{
    if events.len() == 0 {
        Seq::empty()
    } else {
        noted(source_rows(events.drop_last()), events.last())
    }
}

/// Whether a row is found by a query.
pub open spec fn source_row_matches(row: SourceRowView, query: Seq<char>) -> bool {
    query.len() == 0 || text::contains_ignore_case(row.source, query) || text::contains_ignore_case(
        model::level_name(row.last_level),
        query,
    )
}

/// The rows that a query finds.
pub open spec fn source_rows_matching(rows: Seq<SourceRowView>, query: Seq<char>) -> Seq<
    SourceRowView,
>
    decreases rows.len(),
{
    if rows.len() == 0 {
        rows
    } else if source_row_matches(rows.last(), query) {
        source_rows_matching(rows.drop_last(), query).push(rows.last())
    } else {
        source_rows_matching(rows.drop_last(), query)
    }
}

pub proof fn lemma_row_place(rows: Seq<SourceRowView>, source: Seq<char>)
    ensures
        0 <= row_place(rows, source) <= rows.len(),
        row_place(rows, source) < rows.len() ==> !order::before(
            rows[row_place(rows, source)].source,
            source,
        ),
        forall|i: int|
            0 <= i < row_place(rows, source) ==> order::before(
                (#[trigger] rows[i]).source,
                source,
            ),
    decreases rows.len(),
{
    if rows.len() > 0 && order::before(rows[0].source, source) {
        let rest = rows.drop_first();
        lemma_row_place(rest, source);
        assert forall|i: int| 0 <= i < row_place(rows, source) implies order::before(
            (#[trigger] rows[i]).source,
            source,
        ) by {
            if i > 0 {
                assert(rest[i - 1] == rows[i]);
            }
        }
    }
}

fn find_place(rows: &Vec<SourceStatusRow>, source: &str) -> (result: usize)
    ensures
        result == row_place(text::views(rows@), source@),
        result <= rows@.len(),
{
    let ghost all = text::views(rows@);
    let mut i: usize = 0;
    assert(all.skip(0) =~= all);
    while i < rows.len()
        invariant
            i <= rows@.len(),
            all == text::views(rows@),
            row_place(all, source@) == i + row_place(all.skip(i as int), source@),
        decreases rows@.len() - i,
    {
        if !str_before(rows[i].source.as_str(), source) {
            return i;
        }
        assert(all.skip(i as int).drop_first() =~= all.skip(i + 1));
        i += 1;
    }
    i
}

fn count_event(row: SourceStatusRow, event: &LogEvent) -> (result: SourceStatusRow)
    requires
        row.count < usize::MAX,
        row.warnings < usize::MAX,
        row.errors < usize::MAX,
    ensures
        result@ == counted(row@, event@),
{
    let mut row = row;
    row.count += 1;
    if event.level == Level::Warn {
        row.warnings += 1;
    }
    if event.level == Level::Fatal || event.level == Level::Error {
        row.errors += 1;
    }
    row.last_level = event.level;
    row.last_sequence = event.sequence;
    row
}

/// The rows of the sources of some events.
pub fn all_source_status_rows(events: &VecDeque<LogEvent>) -> (result: Vec<SourceStatusRow>)
    ensures
        text::views(result@) == source_rows(text::views(events@)),
{
    let ghost all = text::views(events@);
    let mut rows: Vec<SourceStatusRow> = Vec::new();
    let mut i: usize = 0;
    assert(text::views(rows@) =~= Seq::<SourceRowView>::empty());
    assert(all.take(0) =~= Seq::<EventView>::empty());
    while i < events.len()
        invariant
            i <= events@.len(),
            all == text::views(events@),
            text::views(rows@) == source_rows(all.take(i as int)),
            forall|j: int|
                0 <= j < rows@.len() ==> (#[trigger] rows@[j]).count <= i && rows@[j].warnings <= i
                    && rows@[j].errors <= i,
        decreases events@.len() - i,
    {
        assert(all.take(i + 1).drop_last() =~= all.take(i as int));
        let event = &events[i];
        let ghost before = text::views(rows@);
        let ghost earlier = rows@;
        let at = find_place(&rows, event.source.as_str());
        if at < rows.len() && same(rows[at].source.as_str(), event.source.as_str()) {
            let row = count_event(rows[at].clone(), event);
            rows[at] = row;
            assert(text::views(rows@) =~= before.update(at as int, row@));
        } else {
            let row = count_event(
                SourceStatusRow {
                    source: event.source.clone(),
                    count: 0,
                    warnings: 0,
                    errors: 0,
                    last_level: event.level,
                    last_sequence: event.sequence,
                },
                event,
            );
            rows.insert(at, row);
            assert(text::views(rows@) =~= before.insert(at as int, row@));
            assert forall|j: int| 0 <= j < rows@.len() implies (#[trigger] rows@[j]).count <= i + 1
                && rows@[j].warnings <= i + 1 && rows@[j].errors <= i + 1 by {
                if j < at {
                    assert(rows@[j] == earlier[j]);
                } else if j > at {
                    assert(rows@[j] == earlier[j - 1]);
                }
            }
        }
        i += 1;
    }
    assert(all.take(i as int) =~= all);
    rows
}

/// The rows of sources that a query finds.
pub fn source_status_rows_for_query(events: &VecDeque<LogEvent>, query: &str) -> (result: Vec<
    SourceStatusRow,
>)
    ensures
        text::views(result@) == source_rows_matching(source_rows(text::views(events@)), query@),
{
    let rows = all_source_status_rows(events);
    let ghost all = text::views(rows@);
    let mut result: Vec<SourceStatusRow> = Vec::new();
    let mut i: usize = 0;
    assert(text::views(result@) =~= all.take(0));
    while i < rows.len()
        invariant
            i <= rows@.len(),
            all == text::views(rows@),
            text::views(result@) == source_rows_matching(all.take(i as int), query@),
        decreases rows@.len() - i,
    {
        assert(all.take(i + 1).drop_last() =~= all.take(i as int));
        let row = &rows[i];
        if query.is_empty() || contains_ignore_ascii_case(row.source.as_str(), query)
            || contains_ignore_ascii_case(row.last_level.as_str(), query) {
            result.push(row.clone());
        }
        i += 1;
    }
    assert(all.take(i as int) =~= all);
    result
}

/// How many events come from a source.
pub open spec fn source_count(events: Seq<EventView>, source: Seq<char>) -> int
    decreases events.len(),
{
    if events.len() == 0 {
        0
    } else {
        source_count(events.drop_last(), source) + if events.last().source == source {
            1int
        } else {
            0int
        }
    }
}

/// Whether rows come in the order of their names, no name twice.
pub open spec fn in_order(rows: Seq<SourceRowView>) -> bool {
    forall|i: int, j: int|
        0 <= i < j < rows.len() ==> order::before(
            (#[trigger] rows[i]).source,
            (#[trigger] rows[j]).source,
        )
}

/// Whether some row is that of a source.
pub open spec fn has_row(rows: Seq<SourceRowView>, source: Seq<char>) -> bool {
    exists|i: int| 0 <= i < rows.len() && (#[trigger] rows[i]).source == source
}

/// Sources are listed once each, in order, with the number of their events.
pub proof fn law_source_rows_count_events(events: Seq<EventView>)
    ensures
        in_order(source_rows(events)),
        forall|i: int|
            0 <= i < source_rows(events).len() ==> (#[trigger] source_rows(events)[i]).count
                == source_count(events, source_rows(events)[i].source),
        forall|i: int|
            0 <= i < events.len() ==> has_row(source_rows(events), (#[trigger] events[i]).source),
    decreases events.len(),
{
    if events.len() > 0 {
        let front = events.drop_last();
        let event = events.last();
        law_source_rows_count_events(front);
        let before = source_rows(front);
        let after = source_rows(events);
        let at = row_place(before, event.source);
        lemma_row_place(before, event.source);
        let known = at < before.len() && before[at].source == event.source;
        assert forall|i: int| at <= i < before.len() && !known implies order::before(
            event.source,
            (#[trigger] before[i]).source,
        ) by {
            order::lemma_before_total(event.source, before[at].source);
            if i > at {
                order::lemma_before_transitive(event.source, before[at].source, before[i].source);
            }
        }
        assert forall|i: int, j: int| 0 <= i < j < after.len() implies order::before(
            (#[trigger] after[i]).source,
            (#[trigger] after[j]).source,
        ) by {
            if known {
                assert(after[i].source == before[i].source);
                assert(after[j].source == before[j].source);
            } else {
                if i < at {
                    assert(after[i] == before[i]);
                } else if i > at {
                    assert(after[i] == before[i - 1]);
                }
                if j < at {
                    assert(after[j] == before[j]);
                } else if j > at {
                    assert(after[j] == before[j - 1]);
                }
            }
        }
        assert forall|i: int| 0 <= i < before.len() && !known implies (
        #[trigger] before[i]).source != event.source by {
            order::lemma_before_total(before[i].source, event.source);
        }
        assert(!known ==> source_count(front, event.source) == 0) by {
            if !known && source_count(front, event.source) != 0 {
                lemma_source_counted(front, event.source);
                let k = choose|k: int|
                    0 <= k < front.len() && (#[trigger] front[k]).source == event.source;
                assert(has_row(before, front[k].source));
            }
        }
        assert forall|i: int| 0 <= i < after.len() implies (#[trigger] after[i]).count
            == source_count(events, after[i].source) by {
            if known {
                assert(before[i].count == source_count(front, before[i].source));
                if i != at {
                    assert(after[i] == before[i]);
                    assert(before[i].source != event.source) by {
                        order::lemma_before_total(before[i].source, event.source);
                        if i < at {
                            assert(order::before(before[i].source, before[at].source));
                        } else {
                            assert(order::before(before[at].source, before[i].source));
                        }
                    }
                }
            } else if i < at {
                assert(after[i] == before[i]);
            } else if i > at {
                assert(after[i] == before[i - 1]);
            }
        }
        assert forall|i: int| 0 <= i < events.len() implies has_row(
            after,
            (#[trigger] events[i]).source,
        ) by {
            if i < front.len() {
                assert(front[i] == events[i]);
                assert(has_row(before, front[i].source));
                let k = choose|k: int|
                    0 <= k < before.len() && (#[trigger] before[k]).source == front[i].source;
                if known {
                    assert(after[k].source == before[k].source);
                } else if k < at {
                    assert(after[k] == before[k]);
                } else {
                    assert(after[k + 1] == before[k]);
                }
            } else {
                assert(after[at].source == event.source);
            }
        }
    }
}

proof fn lemma_source_counted(events: Seq<EventView>, source: Seq<char>)
    requires
        source_count(events, source) != 0,
    ensures
        exists|i: int| 0 <= i < events.len() && (#[trigger] events[i]).source == source,
    decreases events.len(),
{
    if events.last().source == source {
        assert(events[events.len() - 1].source == source);
    } else {
        let front = events.drop_last();
        lemma_source_counted(front, source);
        let k = choose|k: int| 0 <= k < front.len() && (#[trigger] front[k]).source == source;
        assert(events[k].source == source);
    }
}

} // verus!
