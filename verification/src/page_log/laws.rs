//! What pages are kept and asked for.
use crate::buffer;
use crate::filter::{self, FilterView, UpdateView};
use crate::model::{self, EventView, PropertyView, ValueView};
use crate::page_log::record::{self, RecordValueView};
use crate::page_log::registry::{self, ClaimView, MetadataView, PageLogWindow, PageProbe, ScanView};
use crate::page_log::replay::{self, RecordView, Replay};
use crate::page_log::{self, files, query, PageErrorView, QueryView};
use crate::text;
use crate::text::laws as texts;
use crate::text::laws::{is_blank, is_tight};
use crate::text::{bytes, order};
use vstd::prelude::*;

verus! {

// ---------------------------------------------------------------------------
// Questions
// ---------------------------------------------------------------------------

/// The last items of a list, as many as are asked for.
pub open spec fn newest<T>(items: Seq<T>, count: int) -> Seq<T> {
    items.subrange(
        if items.len() > count {
            items.len() - count
        } else {
            0
        },
        items.len() as int,
    )
}

/// The answer to a question is the newest of the records that its filter lets
/// through, as many as are asked for, in their order.
pub proof fn law_answer_is_the_newest_matching_records(lines: Seq<Seq<char>>, asked: QueryView)
    requires
        asked.line_count >= 0,
    ensures
        query::asked_records(lines, asked) == newest(
            replay::page_records(asked.source_config.fields, lines).filter(
                |record: RecordView| asked.filter().matches(record.event),
            ),
            asked.line_count,
        ),
{
    let records = replay::page_records(asked.source_config.fields, lines);
    lemma_matching(records, asked.filter());
    let found = replay::matching(records, asked.filter());
    lemma_newest(found, asked.line_count);
}

proof fn lemma_matching(records: Seq<RecordView>, filters: FilterView)
    ensures
        replay::matching(records, filters) == records.filter(
            |record: RecordView| filters.matches(record.event),
        ),
    decreases records.len(),
{
    reveal(Seq::filter);
    if records.len() > 0 {
        lemma_matching(records.drop_last(), filters);
    }
}

proof fn lemma_newest<T>(items: Seq<T>, count: int)
    requires
        count >= 0,
    ensures
        replay::last_of(items, count) == newest(items, count),
{
    assert(replay::last_of(items, count) =~= newest(items, count));
}

/// What is printed without a condition is the last lines as they are; with one, it
/// is the lines of each record of the answer.
pub proof fn law_printed_is_what_was_asked(lines: Seq<Seq<char>>, asked: QueryView)
    requires
        asked.line_count >= 0,
    ensures
        !asked.filter().active() ==> query::printed(lines, asked) == newest(
            lines,
            asked.line_count,
        ),
        asked.filter().active() ==> query::printed(lines, asked).len() == query::asked_records(
            lines,
            asked,
        ).len(),
        asked.filter().active() ==> forall|i: int|
            0 <= i < query::asked_records(lines, asked).len() ==> #[trigger] query::printed(
                lines,
                asked,
            )[i] == query::asked_records(lines, asked)[i].raw,
{
    lemma_newest(lines, asked.line_count);
}

/// A question's source, text and level are conditions of its filter; what is blank
/// is none.
pub proof fn law_question_sets_its_filter(asked: QueryView, pad: Seq<char>, typed: Seq<char>)
    requires
        is_blank(pad),
        is_tight(typed),
    ensures
        ({
            let filters = asked.filter();
            &&& filters.level == asked.level
            &&& asked.source == Some(pad + typed + pad) ==> filters.source == Some(typed)
            &&& asked.source == Some(pad) ==> filters.source is None
            &&& asked.source is None ==> filters.source is None
            &&& asked.text == Some(pad + typed + pad) ==> filters.text == Some(typed)
            &&& asked.text == Some(pad) ==> filters.text is None
            &&& asked.text is None ==> filters.text is None
            &&& asked.property_filters.len() == 0 ==> filters.includes.len() == 0
                && filters.excludes.len() == 0
        }),
{
    texts::law_trimming_keeps_the_text(pad, typed, pad);
    texts::law_trimming_keeps_the_text(pad, Seq::empty(), Seq::empty());
    assert(pad + Seq::<char>::empty() + Seq::<char>::empty() =~= pad);
    let base = FilterView {
        source: page_log::typed(asked.source),
        text: page_log::typed(asked.text),
        level: asked.level,
        ..filter::no_filter()
    };
    lemma_base_kept(base, asked.property_filters);
}

proof fn lemma_base_kept(base: FilterView, filters: Seq<Seq<char>>)
    ensures
        page_log::with_filters(base, filters).source == base.source,
        page_log::with_filters(base, filters).text == base.text,
        page_log::with_filters(base, filters).level == base.level,
    decreases filters.len(),
{
    if filters.len() > 0 {
        lemma_base_kept(base, filters.drop_last());
    }
}

/// Every condition on properties that a question types is one of its filter: on
/// the side where it is typed.
pub proof fn law_question_adds_its_conditions(base: FilterView, filters: Seq<Seq<char>>, i: int)
    requires
        0 <= i < filters.len(),
        filter::typed_update(filters[i], false) is Some,
    ensures
        ({
            let update = filter::typed_update(filters[i], false)->0;
            let after = page_log::with_filters(base, filters);
            &&& update.exclude ==> after.excludes.contains(update.predicate)
            &&& !update.exclude ==> after.includes.contains(update.predicate)
        }),
    decreases filters.len(),
{
    let update = filter::typed_update(filters[i], false)->0;
    let front = filters.drop_last();
    let before = page_log::with_filters(base, front);
    if i == filters.len() - 1 {
        filter::law_adding_is_idempotent(before, update);
    } else {
        law_question_adds_its_conditions(base, front, i);
        match filter::typed_update(filters.last(), false) {
            Some(last) => {
                lemma_still_there(before, last, update);
            },
            None => {},
        }
    }
}

proof fn lemma_still_there(before: FilterView, last: UpdateView, update: UpdateView)
    requires
        update.exclude ==> before.excludes.contains(update.predicate),
        !update.exclude ==> before.includes.contains(update.predicate),
    ensures
        update.exclude ==> before.added(last).excludes.contains(update.predicate),
        !update.exclude ==> before.added(last).includes.contains(update.predicate),
{
    let after = before.added(last);
    if update.exclude {
        let k = choose|k: int|
            0 <= k < before.excludes.len() && before.excludes[k] == update.predicate;
        assert(after.excludes[k] == update.predicate);
    } else {
        let k = choose|k: int|
            0 <= k < before.includes.len() && before.includes[k] == update.predicate;
        assert(after.includes[k] == update.predicate);
    }
}

/// A question with a condition that cannot be read is refused, with the first such
/// condition; any other is not.
pub proof fn law_unreadable_condition_is_told(asked: QueryView, i: int)
    ensures
        (forall|k: int|
            0 <= k < asked.property_filters.len() ==> filter::typed_update(
                #[trigger] asked.property_filters[k],
                false,
            ) is Some) == (asked.error() is None),
        0 <= i < asked.property_filters.len() && filter::typed_update(
            asked.property_filters[i],
            false,
        ) is None && (forall|k: int|
            0 <= k < i ==> filter::typed_update(
                #[trigger] asked.property_filters[k],
                false,
            ) is Some) ==> asked.error() == Some(
            PageErrorView::InvalidPropertyFilter(asked.property_filters[i]),
        ),
{
    lemma_bad_filter(asked.property_filters);
    let bad = page_log::bad_filter(asked.property_filters);
    if 0 <= i < asked.property_filters.len() && filter::typed_update(
        asked.property_filters[i],
        false,
    ) is None && (forall|k: int|
        0 <= k < i ==> filter::typed_update(
            #[trigger] asked.property_filters[k],
            false,
        ) is Some) {
        if bad < i {
            assert(filter::typed_update(asked.property_filters[bad], false) is Some);
        }
        assert(bad == i);
    }
}

proof fn lemma_bad_filter(filters: Seq<Seq<char>>)
    ensures
        0 <= page_log::bad_filter(filters) <= filters.len(),
        page_log::bad_filter(filters) < filters.len() ==> filter::typed_update(
            filters[page_log::bad_filter(filters)],
            false,
        ) is None,
        forall|k: int|
            0 <= k < page_log::bad_filter(filters) ==> filter::typed_update(
                #[trigger] filters[k],
                false,
            ) is Some,
    decreases filters.len(),
{
    if filters.len() > 0 && filter::typed_update(filters[0], false) is Some {
        let rest = filters.drop_first();
        lemma_bad_filter(rest);
        assert forall|k: int| 0 <= k < page_log::bad_filter(filters) implies filter::typed_update(
            #[trigger] filters[k],
            false,
        ) is Some by {
            if k > 0 {
                assert(rest[k - 1] == filters[k]);
            }
        }
    }
}

// ---------------------------------------------------------------------------
// Records
// ---------------------------------------------------------------------------

/// A record hands out what its event is, and the lines it came from.
pub proof fn law_record_is_its_event(given: RecordView)
    ensures
        ({
            let made = record::page_record(given);
            &&& made.schema_version == 1
            &&& made.source == given.event.source
            &&& made.timestamp == given.event.timestamp
            &&& made.level == given.event.level
            &&& made.message == given.event.message
            &&& made.raw == given.raw
            &&& made.properties == record::ordered_properties(given.event.properties)
        }),
{
}

/// Every property of an event is in its record.
pub proof fn law_every_property_is_recorded(properties: Seq<PropertyView>, i: int)
    requires
        0 <= i < properties.len(),
    ensures
        exists|k: int|
            0 <= k < record::ordered_properties(properties).len() && (
            #[trigger] record::ordered_properties(properties)[k]).key == properties[i].key,
    decreases properties.len(),
{
    let front = properties.drop_last();
    let before = record::ordered_properties(front);
    let all = record::ordered_properties(properties);
    let last = properties[properties.len() - 1];
    let at = record::key_place(before, last.key);
    record::lemma_key_place(before, last.key);
    let known = at < before.len() && before[at].key == last.key;
    if i == properties.len() - 1 {
        assert(all[at].key == last.key);
    } else {
        law_every_property_is_recorded(front, i);
        let k = choose|k: int|
            0 <= k < before.len() && (#[trigger] before[k]).key == front[i].key;
        if known {
            assert(all[k].key == properties[i].key);
        } else if k < at {
            assert(all[k] == before[k]);
        } else {
            assert(all[k + 1] == before[k]);
        }
    }
}

/// A value in a record is what it was: texts are strings, truth values and nothing
/// are themselves, and a number that JSON would write otherwise is a string.
pub proof fn law_recorded_values_are_kept(value: Seq<char>, truth: bool)
    ensures
        record::json_value(ValueView::String(value)) == RecordValueView::String(value),
        record::json_value(ValueView::Text(value)) == RecordValueView::String(value),
        record::json_value(ValueView::Bool(truth)) == RecordValueView::Bool(truth),
        record::json_value(ValueView::Null) == RecordValueView::Null,
        record::is_lossless(value) ==> record::json_value(ValueView::Number(value))
            == RecordValueView::Number(value),
        !record::is_lossless(value) ==> record::json_value(ValueView::Number(value))
            == RecordValueView::String(value),
{
}

/// A line that becomes an event begins a group of its own, and one that belongs to
/// an event goes to the group before it; the record of an event is the lines of its
/// group.
pub proof fn law_lines_are_grouped(before: Replay, line: Seq<char>, event: EventView)
    ensures
        ({
            let change = before.buffer.with_line(0, None, line).1;
            let after = before.read(line);
            &&& change.appended is Some && change.removed.len() == 0 ==> {
                &&& after.groups == before.groups.push(seq![line])
                &&& after.group_of.contains_key(change.appended->0)
                &&& before.groups.len() <= usize::MAX ==> after.group_of[change.appended->0]
                    == before.groups.len()
            }
            &&& change.appended is None && before.current is Some ==> after.groups
                == before.groups.update(
                before.current->0,
                before.groups[before.current->0].push(line),
            )
            &&& before.record(event).event == event
            &&& before.record(event).raw == text::split::join(
                before.groups[before.group_of[event.sequence] as int],
                "\n"@,
            )
        }),
{
    let change = before.buffer.with_line(0, None, line).1;
    if change.removed.len() == 0 {
        assert(Seq::<Seq<char>>::empty().push(line) =~= seq![line]);
    }
}

// ---------------------------------------------------------------------------
// Pages
// ---------------------------------------------------------------------------

/// Whether a text is made of letters, digits and the signs `_`, `-` and `.`.
pub open spec fn is_plain_name(s: Seq<char>) -> bool {
    forall|i: int|
        0 <= i < s.len() ==> 'a' <= #[trigger] s[i] <= 'z' || 'A' <= s[i] <= 'Z' || '0' <= s[i]
            <= '9' || s[i] == '_' || s[i] == '-' || s[i] == '.'
}

/// The id of a page is a plain name that can be that of a file, and every such
/// name of no more than a hundred and twenty-eight bytes is one.
pub proof fn law_ids_are_plain_names(s: Seq<char>)
    ensures
        page_log::is_id(s) == (s.len() > 0 && is_plain_name(s) && bytes::byte_len(s) <= 128 && s
            != seq!['.'] && s != seq!['.', '.']),
{
    reveal_strlit(".");
    reveal_strlit("..");
    assert("."@ =~= seq!['.']);
    assert(".."@ =~= seq!['.', '.']);
    if is_plain_name(s) {
        assert forall|i: int| 0 <= i < s.len() implies text::is_name_char(#[trigger] s[i]) by {
            assert('a' <= s[i] <= 'z' || 'A' <= s[i] <= 'Z' || '0' <= s[i] <= '9' || s[i] == '_'
                || s[i] == '-' || s[i] == '.');
        }
    }
    if text::all_name_chars(s) {
        assert forall|i: int| 0 <= i < s.len() implies 'a' <= #[trigger] s[i] <= 'z' || 'A' <= s[i]
            <= 'Z' || '0' <= s[i] <= '9' || s[i] == '_' || s[i] == '-' || s[i] == '.' by {
            assert(text::is_name_char(s[i]));
        }
    }
}

/// The name of a page's log leads nowhere but to a file beside the others: it has
/// no separator, and begins with the id.
pub proof fn law_log_names_stay_in_their_directory(id: Seq<char>, name: Seq<char>, i: int)
    requires
        files::is_generation(id, name),
        0 <= i < name.len(),
    ensures
        name[i] != '/' && name[i] != '\\',
        text::starts_with(name, id + seq!['.']),
        text::ends_with(name, ".log"@),
{
    reveal_strlit(".");
    assert("."@ =~= seq!['.']);
    assert(text::is_name_char(name[i]));
}

/// Pages are kept where the environment says: under the state directory, else under
/// the home directory, else with temporary files.
pub proof fn law_pages_are_kept_where_the_environment_says(
    state_home: Seq<char>,
    home: Option<Seq<char>>,
    temp: Seq<char>,
)
    requires
        state_home.len() > 0 && state_home.last() != '/',
        home is Some ==> home->0.len() > 0 && home->0.last() != '/',
        temp.len() > 0 && temp.last() != '/',
    ensures
        files::state_dir(Some(state_home), home, temp) == state_home + "/loggle"@,
        home is Some ==> files::state_dir(None, home, temp) == home->0 + "/.local/state/loggle"@,
        home is Some ==> files::state_dir(Some(Seq::empty()), home, temp) == home->0
            + "/.local/state/loggle"@,
        files::state_dir(None, None, temp) == temp + "/loggle"@,
{
    reveal_strlit("loggle");
    reveal_strlit(".local");
    reveal_strlit("state");
    reveal_strlit("/");
    reveal_strlit("/loggle");
    reveal_strlit("/.local/state/loggle");
    assert(state_home + "/"@ + "loggle"@ =~= state_home + "/loggle"@);
    assert(temp + "/"@ + "loggle"@ =~= temp + "/loggle"@);
    if home is Some {
        let first = home->0 + "/"@ + ".local"@;
        assert(first.last() == 'l');
        let second = first + "/"@ + "state"@;
        assert(second.last() == 'e');
        assert(second + "/"@ + "loggle"@ =~= home->0 + "/.local/state/loggle"@);
    }
}

/// A page is asked for by its lock where its owner holds one, and by its process
/// where it does not; a page that is not ready, or another one, is not there.
pub proof fn law_pages_are_asked_for(id: Seq<char>, metadata: MetadataView, locking: bool)
    ensures
        registry::probe_of(id, None, locking) == PageProbe::Missing,
        !metadata.ready || metadata.page.id != id ==> registry::probe_of(
            id,
            Some(metadata),
            locking,
        ) == PageProbe::Missing,
        metadata.ready && metadata.page.id == id && locking && metadata.lease_version == Some(
            1u32,
        ) ==> registry::probe_of(id, Some(metadata), locking) == PageProbe::Lock,
        metadata.ready && metadata.page.id == id && (!locking || metadata.lease_version is None)
            ==> registry::probe_of(id, Some(metadata), locking) == PageProbe::Process,
{
}

/// A page is claimed where nobody has it: a living one is in use, what cannot be
/// read or is another's goes, and of a stale one its log goes too.
pub proof fn law_claims_respect_living_pages(
    id: Seq<char>,
    metadata: MetadataView,
    locking: bool,
)
    requires
        page_log::is_id(id),
        text::trim(id) == id,
    ensures
        registry::claiming(id, None, true, locking) == ClaimView::RemoveInvalid,
        metadata.page.id != id ==> registry::claiming(id, Some(metadata), true, locking)
            == ClaimView::RemoveMismatched,
        metadata.page.id == id && (!locking || metadata.lease_version is None)
            ==> registry::claiming(id, Some(metadata), true, locking) == ClaimView::InUse,
        metadata.page.id == id && metadata.log_file is None && metadata.ready
            ==> registry::claiming(id, Some(metadata), false, locking) == ClaimView::Reap(
            Some(id + ".log"@),
        ),
        metadata.page.id == id && metadata.log_file is None && !metadata.ready
            ==> registry::claiming(id, Some(metadata), false, locking) == ClaimView::Reap(None),
        metadata.page.id == id && metadata.log_file is Some && files::is_generation(
            id,
            metadata.log_file->0,
        ) ==> registry::claiming(id, Some(metadata), false, locking) == ClaimView::Reap(
            metadata.log_file,
        ),
{
}

/// The file of a page is looked at under its own name: a living page without a lock
/// is listed once it is ready, any other is tried for its lock; a file under another
/// name is left alone.
pub proof fn law_files_of_pages_are_looked_at(
    id: Seq<char>,
    metadata: MetadataView,
    process_active: bool,
    locking: bool,
)
    requires
        page_log::is_id(id),
        text::trim(id) == id,
        metadata.page.id == id,
    ensures
        ({
            let name = id + ".json"@;
            let locked = locking && metadata.lease_version == Some(1u32);
            let found = registry::scanned(name, Some(metadata), process_active, locking);
            &&& !locked && process_active && metadata.ready ==> found == ScanView::List(
                metadata.page,
            )
            &&& !locked && process_active && !metadata.ready ==> found == ScanView::Skip
            &&& locked || !process_active ==> found == ScanView::TryLock(id)
            &&& registry::scanned(id, Some(metadata), process_active, locking) == ScanView::Skip
            &&& registry::scanned(name, None, process_active, locking) == ScanView::Skip
        }),
        ({
            let locked = locking && metadata.lease_version == Some(1u32);
            let found = registry::scanned_under_lock(
                id,
                Some(metadata),
                process_active,
                locking,
            );
            &&& !locked && process_active && metadata.ready ==> found == ScanView::List(
                metadata.page,
            )
            &&& locked || !process_active ==> found == ScanView::Reap(metadata.stale_log())
            &&& registry::scanned_under_lock(id, None, process_active, locking)
                == ScanView::RemoveInvalid
        }),
{
    reveal_strlit(".json");
    assert((id + ".json"@).len() == id.len() + 5);
}

/// A question is asked of a page with the source fields that it names, and after them
/// with those of the page.
pub proof fn law_page_fields_come_after_those_asked_for(asked: QueryView, fields: Seq<Seq<char>>)
    ensures
        asked.for_page(fields).source_config == model::source_config(
            model::add_fields(asked.source_config.configured, fields),
        ),
        asked.for_page(fields).line_count == asked.line_count,
        asked.for_page(fields).filter() == asked.filter(),
{
}

/// The id of a page is told to be wrong for what is wrong with it.
pub proof fn law_wrong_ids_are_told(s: Seq<char>)
    ensures
        s.len() == 0 ==> page_log::id_error(s) == "log page id must not be empty"@,
        s.len() > 0 && bytes::byte_len(s) > 128 ==> page_log::id_error(s)
            == "log page id must be at most 128 characters"@,
        s == "."@ || s == ".."@ ==> page_log::id_error(s) == "log page id must not be . or .."@
            || bytes::byte_len(s) > 128 || s.len() == 0,
{
}

/// What went wrong with a page is told with what it went wrong with.
pub proof fn law_page_errors_are_told(a: Seq<char>, b: Seq<char>, c: Seq<char>)
    ensures
        (PageErrorView::MissingPage { id: a, path: b }).message() == "no log page found for id '"@
            + a + "' at "@ + b,
        PageErrorView::ActivePageIdInUse(a).message() == "log page id '"@ + a
            + "' is already active"@,
        PageErrorView::InvalidPropertyFilter(a).message() == "invalid property filter '"@ + a
            + "'"@,
        (PageErrorView::Io { action: a, path: b, reason: c }).message() == "failed to "@ + a + " "@
            + b + ": "@ + c,
        PageErrorView::Output(a).message() == "failed to write log output: "@ + a,
{
}

/// The records of a page are those of its lines read one after the other.
pub proof fn law_pages_are_read_line_by_line(
    fields: Seq<Seq<char>>,
    lines: Seq<Seq<char>>,
    line: Seq<char>,
)
    ensures
        replay::replayed(fields, Seq::empty()) == Replay::start(fields),
        replay::replayed(fields, lines.push(line)) == replay::replayed(fields, lines).read(line),
        Replay::start(fields).buffer == buffer::empty(usize::MAX as int, fields),
        Replay::start(fields).groups.len() == 0,
{
    assert(lines.push(line).drop_last() =~= lines);
}

/// A page that holds its lock lives where its file says the same as before; any other
/// lives where its process does.
pub proof fn law_living_pages_are_told(
    metadata: MetadataView,
    liveness: registry::PageLiveness,
    locking: bool,
)
    ensures
        ({
            let locked = locking && metadata.lease_version == Some(1u32);
            let lives = registry::lives(metadata, liveness, locking);
            &&& !locked ==> lives == (liveness is Running)
            &&& locked && !(liveness is LockHeld) ==> !lives
            &&& locked ==> (liveness matches registry::PageLiveness::LockHeld(current) ==> lives
                == (text::opt_view(current) == Some(metadata)))
        }),
{
}

/// The logs of a page have different names: one for each time that one is begun.
pub proof fn law_log_names_differ(id: Seq<char>, pid: nat, nanos: nat, first: nat, second: nat)
    requires
        first != second,
    ensures
        files::generation(id, pid, nanos, first) != files::generation(id, pid, nanos, second),
{
    let head = id + "."@ + text::number::decimal(pid) + "."@ + text::number::decimal(nanos) + "."@;
    let a = text::number::decimal(first);
    let b = text::number::decimal(second);
    let x = head + a + ".log"@;
    let y = head + b + ".log"@;
    texts::law_written_number_reads_back(first);
    texts::law_written_number_reads_back(second);
    if x == y {
        assert(x.len() == y.len());
        assert(a.len() == b.len());
        assert(x.subrange(head.len() as int, head.len() as int + a.len()) =~= a);
        assert(y.subrange(head.len() as int, head.len() as int + b.len()) =~= b);
        assert(a == b);
    }
}

/// Where an event has several properties with one key, the first of them is the one
/// in its record.
pub proof fn law_first_value_is_recorded(properties: Seq<PropertyView>, i: int, k: int)
    requires
        0 <= i < properties.len(),
        forall|j: int| 0 <= j < i ==> (#[trigger] properties[j]).key != properties[i].key,
        0 <= k < record::ordered_properties(properties).len(),
        record::ordered_properties(properties)[k].key == properties[i].key,
    ensures
        record::ordered_properties(properties)[k].value == record::json_value(
            properties[i].value,
        ),
    decreases properties.len(),
{
    let front = properties.drop_last();
    let before = record::ordered_properties(front);
    let all = record::ordered_properties(properties);
    let last = properties[properties.len() - 1];
    let at = record::key_place(before, last.key);
    record::lemma_key_place(before, last.key);
    let known = at < before.len() && before[at].key == last.key;
    if i == properties.len() - 1 {
        lemma_new_key(front, last.key);
        if k < at {
            assert(all[k] == before[k]);
        } else if k > at {
            assert(all[k] == before[k - 1]);
        }
    } else {
        assert(front[i] == properties[i]);
        if known {
            law_first_value_is_recorded(front, i, k);
        } else if k < at {
            assert(all[k] == before[k]);
            law_first_value_is_recorded(front, i, k);
        } else if k > at {
            assert(all[k] == before[k - 1]);
            law_first_value_is_recorded(front, i, k - 1);
        } else {
            assert(last.key == properties[i].key);
            law_every_property_is_recorded(front, i);
            let m = choose|m: int|
                0 <= m < before.len() && (#[trigger] before[m]).key == front[i].key;
            lemma_listed_at_its_place(front, last.key, m);
        }
    }
}

proof fn lemma_new_key(properties: Seq<PropertyView>, key: Seq<char>)
    requires
        forall|j: int| 0 <= j < properties.len() ==> (#[trigger] properties[j]).key != key,
    ensures
        forall|k: int|
            0 <= k < record::ordered_properties(properties).len() ==> (
            #[trigger] record::ordered_properties(properties)[k]).key != key,
    decreases properties.len(),
{
    if properties.len() > 0 {
        let front = properties.drop_last();
        let before = record::ordered_properties(front);
        let all = record::ordered_properties(properties);
        let last = properties[properties.len() - 1];
        lemma_new_key(front, key);
        let at = record::key_place(before, last.key);
        record::lemma_key_place(before, last.key);
        let known = at < before.len() && before[at].key == last.key;
        assert forall|k: int| 0 <= k < all.len() implies (#[trigger] all[k]).key != key by {
            if known || k < at {
                assert(all[k] == before[k]);
            } else if k > at {
                assert(all[k] == before[k - 1]);
            } else {
                assert(properties[properties.len() - 1].key != key);
            }
        }
    }
}

proof fn lemma_listed_at_its_place(properties: Seq<PropertyView>, key: Seq<char>, m: int)
    requires
        0 <= m < record::ordered_properties(properties).len(),
        record::ordered_properties(properties)[m].key == key,
    ensures
        ({
            let listed = record::ordered_properties(properties);
            let at = record::key_place(listed, key);
            at < listed.len() && listed[at].key == key
        }),
{
    let listed = record::ordered_properties(properties);
    let at = record::key_place(listed, key);
    record::law_record_has_first_values(properties);
    record::lemma_key_place(listed, key);
    order::lemma_before_total(key, key);
    if m < at {
        assert(order::before(listed[m].key, key));
    } else if m > at {
        assert(order::before(listed[at].key, listed[m].key));
        order::lemma_before_total(listed[at].key, key);
    }
}

/// A question for a number of lines asks for every line: it has no source, no text,
/// no level and no condition on properties.
pub proof fn law_plain_question_asks_for_all(count: int)
    ensures
        page_log::plain_query(count).line_count == count,
        page_log::plain_query(count).source is None,
        page_log::plain_query(count).text is None,
        page_log::plain_query(count).level is None,
        page_log::plain_query(count).property_filters.len() == 0,
{
}

/// What is handed out of a page is one record for each that answers, in order.
pub proof fn law_records_are_handed_out_in_order(records: Seq<RecordView>, i: int)
    requires
        0 <= i < records.len(),
    ensures
        query::handed_out(records).len() == records.len(),
        query::handed_out(records)[i].source == records[i].event.source,
        query::handed_out(records)[i].message == records[i].event.message,
        query::handed_out(records)[i].level == records[i].event.level,
        query::handed_out(records)[i].timestamp == records[i].event.timestamp,
        query::handed_out(records)[i].raw == records[i].raw,
        query::events_of(records).len() == records.len(),
        query::events_of(records)[i] == records[i].event,
{
}

/// A log that keeps a number of lines is written anew once it holds twice as many,
/// and one that keeps all of them never is.
pub proof fn law_logs_are_written_anew(max_lines: usize, written: usize)
    requires
        written < usize::MAX,
    ensures
        max_lines > 0 ==> (PageLogWindow { max_lines, lines_written: written }.is_full()
            <==> written >= max_lines + max_lines),
        max_lines == 0 ==> !(PageLogWindow { max_lines, lines_written: written }).is_full(),
{
}

/// Facets are told of up to a hundred thousand records, and of one at least.
pub proof fn law_facets_have_their_window(count: int)
    ensures
        query::is_window(count) <==> 1 <= count <= 100000,
{
}

} // verus!
