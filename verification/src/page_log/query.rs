//! Answering what is asked of a page, from its lines and its source fields.
use crate::facet::{
    self, aggregate_facets, FacetGroup, FacetOptions, MAX_FACET_RECORD_LIMIT,
    MIN_FACET_RECORD_LIMIT,
};
use crate::model::{EventView, LogEvent};
use crate::page_log::record::{self, LogPageRecord, PageRecordView};
use crate::page_log::replay::{
    self, parsed_log_page_records, tail_lines, tail_matching_records, RecordView,
};
use crate::page_log::{
    log_filter_for_options, FacetQueryError, LogPageError, LogPageQueryOptions, LogPageTailOptions,
    QueryView,
};
use crate::text;
use vstd::prelude::*;

verus! {

broadcast use text::lemma_views_push;

/// The last records of a page that are asked for.
pub open spec fn asked_records(lines: Seq<Seq<char>>, query: QueryView) -> Seq<RecordView> {
    replay::last_of(
        replay::matching(
            replay::page_records(query.source_config.fields, lines),
            query.filter(),
        ),
        query.line_count,
    )
}

/// The raw text of records.
pub open spec fn raw_texts(records: Seq<RecordView>) -> Seq<Seq<char>> {
    Seq::new(records.len(), |i: int| records[i].raw)
}

/// What is printed of a page: where no condition is asked for its last lines,
/// else the whole text of each of the last records that match.
pub open spec fn printed(lines: Seq<Seq<char>>, query: QueryView) -> Seq<Seq<char>> {
    if query.filter().active() {
        raw_texts(asked_records(lines, query))
    } else {
        replay::last_of(lines, query.line_count)
    }
}

/// The records of a page that are handed out.
pub open spec fn handed_out(records: Seq<RecordView>) -> Seq<PageRecordView> {
    Seq::new(records.len(), |i: int| record::page_record(records[i]))
}

/// The events of records.
pub open spec fn events_of(records: Seq<RecordView>) -> Seq<EventView> {
    Seq::new(records.len(), |i: int| records[i].event)
}

/// What is printed of a page.
pub fn print_log_page_query(
    lines: &[String],
    source_fields: &[String],
    options: &LogPageQueryOptions,
) -> (result: Result<Vec<String>, LogPageError>)
    ensures
        ({
            let query = options@.for_page(text::views(source_fields@));
            match result {
                Ok(output) => query.error() is None && text::views(output@) == printed(
                    text::views(lines@),
                    query,
                ),
                Err(error) => query.error() == Some(error@),
            }
        }),
{
    let options = options.for_page(source_fields);
    let filter = match log_filter_for_options(&options) {
        Ok(filter) => filter,
        Err(error) => {
            return Err(error);
        },
    };
    if !filter.has_active_filters() {
        return Ok(tail_lines(lines, options.line_count));
    }
    let records = parsed_log_page_records(lines, &options.source_config);
    let asked = tail_matching_records(&records, &filter, options.line_count);
    let ghost all = raw_texts(text::views(asked@));
    let mut output: Vec<String> = Vec::new();
    let mut i: usize = 0;
    assert(text::views(output@) =~= all.take(0));
    while i < asked.len()
        invariant
            i <= asked@.len(),
            all == raw_texts(text::views(asked@)),
            text::views(output@) == all.take(i as int),
        decreases asked@.len() - i,
    {
        output.push(asked[i].raw.clone());
        assert(all[i as int] == asked@[i as int].raw@);
        assert(all.take(i + 1) =~= all.take(i as int).push(all[i as int]));
        i += 1;
    }
    assert(all.take(i as int) =~= all);
    Ok(output)
}

/// What is printed of the end of a page.
pub fn print_log_page_tail_with_options(
    lines: &[String],
    source_fields: &[String],
    options: &LogPageTailOptions,
) -> (result: Result<Vec<String>, LogPageError>)
    ensures
        ({
            let query = options@.for_page(text::views(source_fields@));
            match result {
                Ok(output) => query.error() is None && text::views(output@) == printed(
                    text::views(lines@),
                    query,
                ),
                Err(error) => query.error() == Some(error@),
            }
        }),
{
    print_log_page_query(lines, source_fields, &LogPageQueryOptions::from_tail(options))
}

/// The last lines of a page.
pub fn print_log_page_tail(lines: &[String], line_count: usize) -> (result: Vec<String>)
    ensures
        text::views(result@) == replay::last_of(text::views(lines@), line_count as int),
{
    tail_lines(lines, line_count)
}

/// The last records of a page that match.
pub fn query_log_page_records(
    lines: &[String],
    source_fields: &[String],
    options: &LogPageQueryOptions,
) -> (result: Result<Vec<LogPageRecord>, LogPageError>)
    ensures
        ({
            let query = options@.for_page(text::views(source_fields@));
            match result {
                Ok(records) => query.error() is None && text::views(records@) == handed_out(
                    asked_records(text::views(lines@), query),
                ),
                Err(error) => query.error() == Some(error@),
            }
        }),
{
    let options = options.for_page(source_fields);
    let filter = match log_filter_for_options(&options) {
        Ok(filter) => filter,
        Err(error) => {
            return Err(error);
        },
    };
    let records = parsed_log_page_records(lines, &options.source_config);
    let asked = tail_matching_records(&records, &filter, options.line_count);
    let ghost all = handed_out(text::views(asked@));
    let mut output: Vec<LogPageRecord> = Vec::new();
    let mut i: usize = 0;
    assert(text::views(output@) =~= all.take(0));
    while i < asked.len()
        invariant
            i <= asked@.len(),
            all == handed_out(text::views(asked@)),
            text::views(output@) == all.take(i as int),
        decreases asked@.len() - i,
    {
        output.push(LogPageRecord::from_parsed(asked[i]));
        assert(all[i as int] == record::page_record(asked@[i as int]@));
        assert(all.take(i + 1) =~= all.take(i as int).push(all[i as int]));
        i += 1;
    }
    assert(all.take(i as int) =~= all);
    Ok(output)
}

/// Whether so many records can be divided into facets.
pub open spec fn is_window(line_count: int) -> bool {
    MIN_FACET_RECORD_LIMIT <= line_count <= MAX_FACET_RECORD_LIMIT
}

/// The facets of the newest records of a page.
pub fn query_log_page_facets(
    lines: &[String],
    source_fields: &[String],
    options: &LogPageQueryOptions,
    facet_options: &FacetOptions,
) -> (result: Result<Vec<FacetGroup>, FacetQueryError>)
    ensures
        ({
            let query = options@.for_page(text::views(source_fields@));
            match result {
                Ok(groups) => is_window(query.line_count) && query.error() is None && text::views(
                    groups@,
                ) == facet::facets(
                    events_of(
                        replay::page_records(query.source_config.fields, text::views(lines@)),
                    ),
                    query.line_count,
                    query.filter(),
                    facet_options@.bucket_limit,
                    facet_options@.property_key,
                ),
                Err(FacetQueryError::InvalidRecordWindow { value }) => value == query.line_count
                    && !is_window(query.line_count),
                Err(FacetQueryError::Page(error)) => is_window(query.line_count) && query.error()
                    == Some(error@),
            }
        }),
{
    if options.line_count < MIN_FACET_RECORD_LIMIT || options.line_count > MAX_FACET_RECORD_LIMIT {
        return Err(FacetQueryError::InvalidRecordWindow { value: options.line_count });
    }
    let options = options.for_page(source_fields);
    let filter = match log_filter_for_options(&options) {
        Ok(filter) => filter,
        Err(error) => {
            return Err(FacetQueryError::Page(error));
        },
    };
    let records = parsed_log_page_records(lines, &options.source_config);
    let ghost all = events_of(text::views(records@));
    let mut events: Vec<&LogEvent> = Vec::new();
    let mut i: usize = 0;
    assert(text::views(events@) =~= all.take(0));
    while i < records.len()
        invariant
            i <= records@.len(),
            all == events_of(text::views(records@)),
            text::views(events@) == all.take(i as int),
        decreases records@.len() - i,
    {
        events.push(&records[i].event);
        assert(all[i as int] == records@[i as int].event@);
        assert(all.take(i + 1) =~= all.take(i as int).push(all[i as int]));
        i += 1;
    }
    assert(all.take(i as int) =~= all);
    Ok(aggregate_facets(events.as_slice(), options.line_count, &filter, facet_options))
}

/// At most as many records are answered as are asked for, and each of them
/// matches.
pub proof fn law_answer_matches(lines: Seq<Seq<char>>, query: QueryView, i: int)
    requires
        query.line_count >= 0,
        0 <= i < asked_records(lines, query).len(),
    ensures
        asked_records(lines, query).len() <= query.line_count,
        query.filter().matches(asked_records(lines, query)[i].event),
{
    let records = replay::page_records(query.source_config.fields, lines);
    let all = replay::matching(records, query.filter());
    let at = if all.len() <= query.line_count {
        i
    } else {
        i + all.len() - query.line_count
    };
    replay::lemma_matching(records, query.filter(), at);
}

} // verus!
