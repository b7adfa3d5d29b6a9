//! What the viewer shows, selects and lists.
use crate::app::facets::{self, FacetRowView};
use crate::app::list_state::ListView;
use crate::app::sources::{self, SourceRowView};
use crate::app::state::{self, AppView, FacetPlace};
use crate::app::visible::{self, VisibleView};
use crate::app::{DialogKind, Mode, PromptKind};
use crate::buffer;
use crate::facet::{self, escape, FacetKind, FacetValueType, GroupView};
use crate::filter::workflow::WorkflowView;
use crate::filter::{self, FilterView, PredicateView, UpdateView};
use crate::model::{self, EventView, Level};
use crate::text;
use crate::text::order;
use vstd::prelude::*;

verus! {

// ---------------------------------------------------------------------------
// The shown events
// ---------------------------------------------------------------------------

/// The shown events are those that the filter lets through, all of them and in
/// their order.
pub proof fn law_shown_events_are_let_through(events: Seq<EventView>, filters: FilterView)
    ensures
        visible::shown_events(events, filters) == events.filter(
            |event: EventView| filters.matches(event),
        ),
    decreases events.len(),
{
    reveal(Seq::filter);
    if events.len() > 0 {
        law_shown_events_are_let_through(events.drop_last(), filters);
    }
}

/// Moving goes as far as asked for, and no farther than the first and the last
/// event; it ends following.
pub proof fn law_moving_stays_within_the_events(view: VisibleView, count: int, amount: int)
    requires
        0 <= view.selected < count,
        0 <= amount,
    ensures
        view.moved_down(count, amount).selected == if view.selected + amount <= count - 1 {
            view.selected + amount
        } else {
            count - 1
        },
        view.moved_up(amount).selected == if view.selected - amount >= 0 {
            view.selected - amount
        } else {
            0
        },
        !view.moved_down(count, amount).follow,
        !view.moved_up(amount).follow,
{
}

/// Searching goes to the next or the previous event, and round the ends.
pub proof fn law_searching_goes_round(view: VisibleView, count: int)
    requires
        0 <= view.selected < count,
    ensures
        view.searched(count, true).selected == if view.selected == count - 1 {
            0
        } else {
            view.selected + 1
        },
        view.searched(count, false).selected == if view.selected == 0 {
            count - 1
        } else {
            view.selected - 1
        },
        !view.searched(count, true).follow && !view.searched(count, false).follow,
{
}

/// Following selects the last event and forgets what came meanwhile; otherwise the
/// selection stays where it is, as long as there are enough events.
pub proof fn law_following_selects_the_last(view: VisibleView, count: int)
    requires
        count > 0,
        view.selected >= 0,
    ensures
        view.at_bottom(count).selected == count - 1,
        view.at_bottom(count).follow,
        view.at_bottom(count).backlog == 0,
        view.follow ==> view.reselected(count).selected == count - 1,
        !view.follow && view.selected < count ==> view.reselected(count).selected == view.selected,
        !view.follow && view.selected >= count ==> view.reselected(count).selected == count - 1,
        view.reselected(count).follow == view.follow,
{
}

/// The screen stays where it is while the selection is on it; it moves no farther
/// than the selection asks for, shows no more emptiness than it has to, and shows
/// the end while following.
pub proof fn law_screen_moves_with_the_selection(view: VisibleView, count: int, height: int)
    requires
        0 < height,
        0 <= view.selected < count,
        0 <= view.viewport_start,
    ensures
        ({
            let start = view.scrolled(count, height).viewport_start;
            let full = if count > height {
                count - height
            } else {
                0
            };
            &&& 0 <= start <= full
            &&& view.follow ==> start == full
            &&& !view.follow && view.viewport_start <= full && view.viewport_start <= view.selected
                < view.viewport_start + height ==> start == view.viewport_start
            &&& !view.follow && view.viewport_start <= full && view.selected < view.viewport_start
                ==> start == view.selected
            &&& !view.follow && view.viewport_start <= full && view.selected >= view.viewport_start
                + height ==> start == view.selected - height + 1
            &&& !view.follow ==> start <= view.selected < start + height
        }),
{
}

/// A part of the shown events is the events at its places, each with its place.
pub proof fn law_window_is_the_events_at_its_places(
    view: VisibleView,
    events: Seq<EventView>,
    filters: FilterView,
    start: int,
    end: int,
)
    requires
        view.synced(events, filters),
        buffer::in_sequence(events),
        0 <= start <= end <= visible::shown_events(events, filters).len(),
    ensures
        ({
            let shown = events.filter(|event: EventView| filters.matches(event));
            let window = view.window(events, filters, start, end);
            &&& window.len() == end - start
            &&& forall|i: int|
                0 <= i < window.len() ==> #[trigger] window[i] == (start + i, shown[start + i])
        }),
    decreases end - start,
{
    law_shown_events_are_let_through(events, filters);
    if end > start {
        law_window_is_the_events_at_its_places(view, events, filters, start, end - 1);
        visible::law_view_shows_the_shown_events(view, events, filters, end - 1);
    }
}

/// While the view is paused, lines that come are counted, and the selection stays
/// on its place as long as it can.
pub proof fn law_paused_view_counts_lines(app: AppView, line: Seq<char>)
    requires
        !app.visible.follow,
        app.visible.backlog < usize::MAX,
    ensures
        app.received(line).visible.backlog == app.visible.backlog + 1,
        !app.received(line).visible.follow,
        app.visible.selected < app.received(line).count() && app.visible.selected >= 0
            ==> app.received(line).visible.selected == app.visible.selected,
        app.received(line).workflow == app.workflow,
        app.received(line).mode == app.mode,
{
}

/// Lines that come while following are not counted as missed.
pub proof fn law_followed_lines_are_not_counted(app: AppView, line: Seq<char>)
    requires
        app.visible.follow,
    ensures
        app.received(line).visible.backlog == app.visible.backlog,
        app.received(line).visible.follow,
{
}

/// Marking an event marks it and no other, and marking it again takes its mark
/// away and no other.
pub proof fn law_mark_is_set_or_taken_away(app: AppView, number: u64)
    requires
        app.event() is Some,
        visible::increasing(app.marked),
    ensures
        ({
            let sequence = app.event()->0.sequence;
            app.marker_toggled().marked.contains(number) == if number == sequence {
                !app.marked.contains(number)
            } else {
                app.marked.contains(number)
            }
        }),
{
    let sequence = app.event()->0.sequence;
    if app.marked.contains(sequence) {
        visible::lemma_number_removed(app.marked, sequence);
        assert(visible::number_removed(app.marked, sequence).contains(number) <==> (
        app.marked.contains(number) && number != sequence));
    } else {
        visible::lemma_number_inserted(app.marked, sequence);
        assert(visible::number_inserted(app.marked, sequence).contains(number) <==> (
        app.marked.contains(number) || number == sequence));
    }
}

/// In visual mode the events from the one where it began to the selected one are
/// selected, whichever comes first.
pub proof fn law_visual_range_is_between(app: AppView, anchor: int)
    requires
        app.mode == Mode::Visual,
        app.anchor == Some(anchor),
        0 <= anchor < app.count(),
        0 <= app.visible.selected < app.count(),
    ensures
        anchor <= app.visible.selected ==> app.visual_range() == Some(
            (anchor, app.visible.selected),
        ),
        anchor > app.visible.selected ==> app.visual_range() == Some(
            (app.visible.selected, anchor),
        ),
{
}

/// What is copied of some events is their lines as they came, with a line end
/// between them.
pub proof fn law_copied_text_is_the_lines(app: AppView, start: int, end: int)
    requires
        app.visible.synced(app.buffer.events, app.workflow.filters),
        buffer::in_sequence(app.buffer.events),
        0 <= start <= end < visible::shown_events(
            app.buffer.events,
            app.workflow.filters,
        ).len(),
    ensures
        ({
            let shown = app.buffer.events.filter(
                |event: EventView| app.workflow.filters.matches(event),
            );
            let lines = Seq::new((end - start + 1) as nat, |i: int| shown[start + i].raw);
            &&& app.yanked(start, end) is Some
            &&& app.yanked(start, end)->0.count == end - start + 1
            &&& app.yanked(start, end)->0.text == text::split::join(lines, "\n"@)
        }),
{
    law_window_is_the_events_at_its_places(
        app.visible,
        app.buffer.events,
        app.workflow.filters,
        start,
        end + 1,
    );
    let shown = app.buffer.events.filter(|event: EventView| app.workflow.filters.matches(event));
    let window = app.visible.window(app.buffer.events, app.workflow.filters, start, end + 1);
    let lines = Seq::new((end - start + 1) as nat, |i: int| shown[start + i].raw);
    assert(state::raw_lines(window) =~= lines);
}

/// What is exported is the line of every shown event as it came, each with its end.
pub proof fn law_export_is_every_line(lines: Seq<Seq<char>>, line: Seq<char>)
    ensures
        state::ended_lines(lines.push(line)) == state::ended_lines(lines) + line + seq!['\n'],
        state::ended_lines(Seq::empty()).len() == 0,
{
    assert(lines.push(line).drop_last() =~= lines);
    assert(state::ended_lines(lines) + line.push('\n') =~= state::ended_lines(lines) + line + seq![
        '\n',
    ]);
}

// ---------------------------------------------------------------------------
// Lists
// ---------------------------------------------------------------------------

/// A list is moved through and searched as it is typed.
pub proof fn law_lists_are_moved_through(list: ListView, len: int, amount: int, c: char)
    requires
        0 <= list.selected < len,
        amount >= 0,
    ensures
        list.moved_down(amount, len).selected == if list.selected + amount < len {
            list.selected + amount
        } else {
            len - 1
        },
        list.moved_up(amount).selected == if list.selected >= amount {
            list.selected - amount
        } else {
            0
        },
        list.typed(c).query == list.query.push(c),
        list.typed(c).erased().query == list.query,
        list.synced(len).selected == list.selected,
{
    assert(list.query.push(c).drop_last() =~= list.query);
}

/// A search of pinned fields finds those that hold the query, and one of the
/// sources those whose name or last level does.
pub proof fn law_search_finds_fields_and_sources(
    keys: Seq<Seq<char>>,
    rows: Seq<SourceRowView>,
    query: Seq<char>,
)
    ensures
        state::keys_matching(keys, query) == keys.filter(
            |key: Seq<char>| query.len() == 0 || text::contains_ignore_case(key, query),
        ),
        sources::source_rows_matching(rows, query) == rows.filter(
            |row: SourceRowView|
                query.len() == 0 || text::contains_ignore_case(row.source, query)
                    || text::contains_ignore_case(model::level_name(row.last_level), query),
        ),
    decreases keys.len() + rows.len(),
{
    reveal(Seq::filter);
    if keys.len() > 0 {
        law_search_finds_fields_and_sources(keys.drop_last(), rows, query);
    }
    if rows.len() > 0 {
        law_search_finds_fields_and_sources(keys, rows.drop_last(), query);
    }
}

/// Whether the name of one of some types holds a query.
pub open spec fn some_type_holds(types: Seq<FacetValueType>, query: Seq<char>) -> bool {
    exists|i: int|
        0 <= i < types.len() && text::contains_ignore_case(
            facet::name_of_type(#[trigger] types[i]),
            query,
        )
}

/// A search of the facets finds the rows whose value holds the query, as it is or
/// as it is shown, or whose kind or type does.
pub proof fn law_search_finds_facet_rows(rows: Seq<FacetRowView>, query: Seq<char>)
    ensures
        facets::rows_matching(rows, query) == rows.filter(
            |row: FacetRowView|
                query.len() == 0 || text::contains_ignore_case(row.value, query)
                    || text::contains_ignore_case(escape::escape(row.value), query)
                    || text::contains_ignore_case(facet::kind_name(row.facet), query)
                    || some_type_holds(row.types, query),
        ),
    decreases rows.len(),
{
    reveal(Seq::filter);
    if rows.len() > 0 {
        law_search_finds_facet_rows(rows.drop_last(), query);
    }
}

/// The rows of a facet are its buckets, in their order.
pub open spec fn rows_of(group: GroupView) -> Seq<FacetRowView> {
    Seq::new(
        group.buckets.len(),
        |i: int|
            FacetRowView {
                facet: group.facet,
                value: group.buckets[i].value,
                count: group.buckets[i].count,
                types: group.buckets[i].types,
            },
    )
}

/// The facets list the sources first, then the levels and the property keys; the
/// values of a property are listed where one is asked for.
pub proof fn law_facets_are_listed_in_order(
    events: Seq<EventView>,
    limit: int,
    filters: FilterView,
    buckets: int,
    key: Seq<char>,
)
    ensures
        ({
            let groups = facet::facets(events, limit, filters, buckets, Some(key));
            &&& facets::root_rows(groups) == rows_of(groups[0]) + rows_of(groups[1]) + rows_of(
                groups[2],
            )
            &&& facets::kind_rows(groups, FacetKind::PropertyValue) == rows_of(groups[3])
        }),
        ({
            let groups = facet::facets(events, limit, filters, buckets, None);
            &&& facets::root_rows(groups) == rows_of(groups[0]) + rows_of(groups[1]) + rows_of(
                groups[2],
            )
        }),
{
    let some = facet::facets(events, limit, filters, buckets, Some(key));
    let none = facet::facets(events, limit, filters, buckets, None);
    lemma_places(some);
    lemma_places(none);
    assert(facets::group_rows(some[0]) =~= rows_of(some[0]));
    assert(facets::group_rows(some[1]) =~= rows_of(some[1]));
    assert(facets::group_rows(some[2]) =~= rows_of(some[2]));
    assert(facets::group_rows(some[3]) =~= rows_of(some[3]));
    assert(facets::group_rows(none[0]) =~= rows_of(none[0]));
    assert(facets::group_rows(none[1]) =~= rows_of(none[1]));
    assert(facets::group_rows(none[2]) =~= rows_of(none[2]));
}

proof fn lemma_places(groups: Seq<GroupView>)
    requires
        groups.len() >= 3,
        groups[0].facet == FacetKind::Source,
        groups[1].facet == FacetKind::Level,
        groups[2].facet == FacetKind::PropertyKey,
    ensures
        facets::group_index(groups, FacetKind::Source) == 0,
        facets::group_index(groups, FacetKind::Level) == 1,
        facets::group_index(groups, FacetKind::PropertyKey) == 2,
        groups.len() > 3 && groups[3].facet == FacetKind::PropertyValue ==> facets::group_index(
            groups,
            FacetKind::PropertyValue,
        ) == 3,
{
    reveal_with_fuel(facets::group_index, 5);
    let one = groups.drop_first();
    let two = one.drop_first();
    let three = two.drop_first();
    assert(one[0] == groups[1]);
    assert(two[0] == groups[2]);
    if groups.len() > 3 {
        assert(three[0] == groups[3]);
    }
}

/// The events from a source.
pub open spec fn events_from(events: Seq<EventView>, source: Seq<char>) -> Seq<EventView> {
    events.filter(|event: EventView| event.source == source)
}

/// How many events are warnings.
pub open spec fn warnings_in(events: Seq<EventView>) -> nat {
    events.filter(|event: EventView| event.level == Level::Warn).len()
}

/// How many events are errors.
pub open spec fn errors_in(events: Seq<EventView>) -> nat {
    events.filter(
        |event: EventView| event.level == Level::Error || event.level == Level::Fatal,
    ).len()
}

/// Whether a row tells of some events from a source.
pub open spec fn tells_of(row: SourceRowView, own: Seq<EventView>) -> bool {
    &&& own.len() > 0
    &&& row.count == own.len()
    &&& row.warnings == warnings_in(own)
    &&& row.errors == errors_in(own)
    &&& row.last_level == own.last().level
    &&& row.last_sequence == own.last().sequence
}

/// A source is listed with the number of its events, how many of them warn, how
/// many of them are errors, and what its last one was.
pub proof fn law_sources_are_counted(events: Seq<EventView>, i: int)
    requires
        0 <= i < sources::source_rows(events).len(),
    ensures
        tells_of(
            sources::source_rows(events)[i],
            events_from(events, sources::source_rows(events)[i].source),
        ),
    decreases events.len(),
{
    let front = events.drop_last();
    let event = events.last();
    let before = sources::source_rows(front);
    let at = sources::row_place(before, event.source);
    sources::law_source_rows_count_events(front);
    sources::lemma_row_place(before, event.source);
    let known = at < before.len() && before[at].source == event.source;
    let row = sources::source_rows(events)[i];
    lemma_from_pushed(events, row.source);
    if i == at {
        assert(row.source == event.source);
        let was = events_from(front, event.source);
        lemma_levels_pushed(was, event);
        if known {
            law_sources_are_counted(front, at);
        } else {
            assert forall|k: int| 0 <= k < before.len() implies (#[trigger] before[k]).source
                != event.source by {
                lemma_not_listed(before, event.source, at, k);
            }
            lemma_none_from(front, event.source);
            lemma_no_levels(was);
        }
    } else {
        let k = if known || i < at {
            i
        } else {
            i - 1
        };
        assert(row == before[k]);
        law_sources_are_counted(front, k);
        if known {
            if k < at {
                assert(order::before(before[k].source, before[at].source));
                order::lemma_before_total(before[k].source, before[at].source);
            } else {
                assert(order::before(before[at].source, before[k].source));
                order::lemma_before_total(before[at].source, before[k].source);
            }
        } else {
            lemma_not_listed(before, event.source, at, k);
        }
    }
}

proof fn lemma_not_listed(rows: Seq<SourceRowView>, source: Seq<char>, at: int, k: int)
    requires
        sources::in_order(rows),
        at == sources::row_place(rows, source),
        at >= rows.len() || rows[at].source != source,
        0 <= k < rows.len(),
    ensures
        rows[k].source != source,
{
    sources::lemma_row_place(rows, source);
    order::lemma_before_total(source, source);
    if k < at {
        assert(order::before(rows[k].source, source));
    } else if k > at {
        order::lemma_before_total(rows[at].source, source);
        assert(order::before(rows[at].source, rows[k].source));
    }
}

proof fn lemma_from_pushed(events: Seq<EventView>, source: Seq<char>)
    requires
        events.len() > 0,
    ensures
        events_from(events, source) == if events.last().source == source {
            events_from(events.drop_last(), source).push(events.last())
        } else {
            events_from(events.drop_last(), source)
        },
{
    reveal(Seq::filter);
}

proof fn lemma_levels_pushed(events: Seq<EventView>, event: EventView)
    ensures
        warnings_in(events.push(event)) == warnings_in(events) + if event.level == Level::Warn {
            1nat
        } else {
            0nat
        },
        errors_in(events.push(event)) == errors_in(events) + if event.level == Level::Error
            || event.level == Level::Fatal {
            1nat
        } else {
            0nat
        },
{
    reveal(Seq::filter);
    assert(events.push(event).drop_last() =~= events);
}

proof fn lemma_no_levels(events: Seq<EventView>)
    requires
        events.len() == 0,
    ensures
        warnings_in(events) == 0,
        errors_in(events) == 0,
{
    reveal(Seq::filter);
}

proof fn lemma_none_from(events: Seq<EventView>, source: Seq<char>)
    requires
        forall|k: int|
            0 <= k < sources::source_rows(events).len() ==> (
            #[trigger] sources::source_rows(events)[k]).source != source,
    ensures
        events_from(events, source).len() == 0,
{
    sources::law_source_rows_count_events(events);
    assert forall|i: int| 0 <= i < events.len() implies (#[trigger] events[i]).source != source by {
        assert(sources::has_row(sources::source_rows(events), events[i].source));
    }
    lemma_filter_none(events, source);
}

proof fn lemma_filter_none(events: Seq<EventView>, source: Seq<char>)
    requires
        forall|i: int| 0 <= i < events.len() ==> (#[trigger] events[i]).source != source,
    ensures
        events_from(events, source).len() == 0,
    decreases events.len(),
{
    reveal(Seq::filter);
    if events.len() > 0 {
        assert(events[events.len() - 1].source != source);
        lemma_filter_none(events.drop_last(), source);
        lemma_from_pushed(events, source);
    }
}

// ---------------------------------------------------------------------------
// Prompts and dialogs
// ---------------------------------------------------------------------------

/// What is typed at a prompt is applied to the filter that the prompt is for: after
/// a text, a source or a level was typed the filter has it, and the events shown
/// are those of the new filter.
pub proof fn law_applied_prompt_changes_the_filter(app: AppView, kind: PromptKind)
    requires
        app.mode == Mode::Prompt(kind),
    ensures
        ({
            let after = app.prompt_applied();
            let typed = text::trim(app.prompt);
            let before = app.workflow.filters;
            let filters = after.workflow.filters;
            &&& kind == PromptKind::Text && typed.len() > 0 ==> filters == (FilterView {
                text: Some(typed),
                ..before
            })
            &&& kind == PromptKind::Source && typed.len() > 0 ==> filters == (FilterView {
                source: Some(typed),
                ..before
            })
            &&& kind == PromptKind::Level && typed.len() > 0 ==> filters == (FilterView {
                level: model::level_of(typed),
                ..before
            })
            &&& kind == PromptKind::IncludeProperty && filter::typed_update(typed, false) is Some
                ==> filters == before.added(filter::typed_update(typed, false)->0)
            &&& kind == PromptKind::ExcludeProperty && filter::typed_update(typed, true) is Some
                ==> filters == before.added(filter::typed_update(typed, true)->0)
            &&& filters.active() ==> after.visible.cache == visible::sequences(
                visible::shown_events(app.buffer.events, filters),
            )
            &&& after.prompt.len() == 0
            &&& kind != PromptKind::EditPropertyFilter ==> after.mode == Mode::Normal
            &&& kind == PromptKind::EditPropertyFilter ==> after.mode == Mode::Dialog(
                DialogKind::PropertyFilters,
            )
        }),
{
}

/// Choosing a source of the facets shows the events from it, choosing a level those
/// of the level, and choosing a value of a property those that show it.
pub proof fn law_chosen_facet_sets_the_filter(app: AppView)
    requires
        app.selected_facet_row() is Some,
    ensures
        ({
            let row = app.selected_facet_row()->0;
            let after = app.facet_activated();
            let before = app.workflow.filters;
            let filters = after.workflow.filters;
            &&& app.facet_place is Root && row.facet == FacetKind::Source ==> {
                &&& after.mode == Mode::Normal
                &&& filters.source is Some
                &&& text::eq_ignore_case(filters.source->0, row.value)
                &&& filters == (FilterView { source: filters.source, ..before })
            }
            &&& app.facet_place is Root && row.facet == FacetKind::Level && model::level_of(
                row.value,
            ) is Some ==> {
                &&& after.mode == Mode::Normal
                &&& filters == (FilterView { level: model::level_of(row.value), ..before })
            }
            &&& app.facet_place matches FacetPlace::Values(key) ==> {
                &&& after.mode == Mode::Normal
                &&& !app.workflow.shows_only(key, row.value) ==> filters == before.keyless(
                    key,
                ).added(
                    UpdateView {
                        exclude: false,
                        predicate: PredicateView { key, value: Some(row.value) },
                    },
                )
            }
            &&& app.facet_place is Root && row.facet == FacetKind::PropertyKey && text::trim(
                row.value,
            ).len() > 0 ==> after.facet_place == FacetPlace::Values(row.value)
        }),
{
    let row = app.selected_facet_row()->0;
    assert(text::eq_ignore_case(row.value, row.value));
}

/// Deleting a condition takes the selected one out; deleting a preset takes the
/// selected one out; choosing a preset makes it the filter.
pub proof fn law_selected_rows_are_meant(app: AppView)
    ensures
        app.selected_property_row() matches Some(row) ==> app.property_filter_deleted(
        ).workflow.filters == app.workflow.filters.removed(row.id),
        app.selected_preset_row() matches Some(row) ==> (0 <= row.index
            < app.workflow.presets.len() ==> app.preset_applied().workflow.filters
            == app.workflow.presets[row.index].filters && app.preset_applied().mode == Mode::Normal
            && app.preset_deleted().workflow.presets == app.workflow.presets.remove(row.index)),
        app.selected_property_row() matches Some(row) ==> (
        app.workflow.filters.predicate_at(row.id) matches Some(predicate) ==> {
            &&& app.editing_selected().prompt == predicate.summary(row.id.exclude)
            &&& app.editing_selected().editing == Some(row.id)
            &&& app.editing_selected().mode == Mode::Prompt(PromptKind::EditPropertyFilter)
        }),
{
}

/// The place of a key among others is the first that holds it.
pub proof fn law_removed_key_is_gone_once(keys: Seq<Seq<char>>, key: Seq<char>)
    requires
        keys.no_duplicates(),
    ensures
        state::key_removed(keys, key) == keys.filter(|other: Seq<char>| other != key),
    decreases keys.len(),
{
    lemma_key_index(keys, key);
    let i = state::key_index(keys, key);
    lemma_filter_key(keys, key);
}

proof fn lemma_key_index(keys: Seq<Seq<char>>, key: Seq<char>)
    ensures
        0 <= state::key_index(keys, key) <= keys.len(),
        state::key_index(keys, key) < keys.len() ==> keys[state::key_index(keys, key)] == key,
        forall|i: int| 0 <= i < state::key_index(keys, key) ==> #[trigger] keys[i] != key,
    decreases keys.len(),
{
    if keys.len() > 0 && keys[0] != key {
        let rest = keys.drop_first();
        lemma_key_index(rest, key);
        assert forall|i: int| 0 <= i < state::key_index(keys, key) implies #[trigger] keys[i]
            != key by {
            if i > 0 {
                assert(rest[i - 1] == keys[i]);
            }
        }
    }
}

proof fn lemma_filter_key(keys: Seq<Seq<char>>, key: Seq<char>)
    requires
        keys.no_duplicates(),
    ensures
        ({
            let i = state::key_index(keys, key);
            keys.filter(|other: Seq<char>| other != key) == if i < keys.len() {
                keys.remove(i)
            } else {
                keys
            }
        }),
    decreases keys.len(),
{
    reveal(Seq::filter);
    lemma_key_index(keys, key);
    if keys.len() > 0 {
        let front = keys.drop_last();
        let last = keys[keys.len() - 1];
        lemma_filter_key(front, key);
        lemma_key_index(front, key);
        let i = state::key_index(keys, key);
        let k = state::key_index(front, key);
        if k < front.len() {
            assert(keys[k] == key);
            if i < k {
                assert(front[i] != key);
            }
            assert(i == k);
            assert(last != key);
            assert(front.remove(k).push(last) =~= keys.remove(i));
        } else {
            if i < front.len() {
                assert(front[i] == key);
            }
            if last == key {
                assert(i == keys.len() - 1);
                assert(keys.remove(i) =~= front);
            } else {
                assert(front.push(last) =~= keys);
            }
        }
    }
}

/// The facets are counted when their list is opened: over all retained events that
/// the present filter shows, with as many values as there may be.
pub proof fn law_opened_facets_are_those_of_the_filter(app: AppView)
    ensures
        ({
            let after = app.dialog_opened(DialogKind::Facets);
            let groups = facet::facets(
                app.buffer.events,
                100000,
                app.workflow.filters,
                100,
                None,
            );
            &&& after.mode == Mode::Dialog(DialogKind::Facets)
            &&& after.facet_place is Root
            &&& after.facet_root_rows == facets::root_rows(groups)
            &&& after.facet_root_list.query.len() == 0
            &&& after.facet_root_list.selected == 0
            &&& after.workflow == app.workflow
        }),
{
}

/// The facets are told in one line: how many records were looked at, and how many
/// values of each kind are listed out of how many.
pub proof fn law_facets_are_told_in_one_line(
    events: Seq<EventView>,
    limit: int,
    filters: FilterView,
    buckets: int,
)
    ensures
        ({
            let groups = facet::facets(events, limit, filters, buckets, None);
            facets::root_summary(groups) == ("win="@ + text::number::decimal(
                groups[0].window_records as nat,
            ) + "/"@ + text::number::decimal(groups[0].available_records as nat)) + (if
                groups[0].window_truncated {
                " clipped"@
            } else {
                Seq::<char>::empty()
            }) + (" src="@ + text::number::decimal(groups[0].buckets.len()) + "/"@
                + text::number::decimal(groups[0].total_buckets as nat)) + (" lvl="@
                + text::number::decimal(groups[1].buckets.len()) + "/"@ + text::number::decimal(
                groups[1].total_buckets as nat,
            )) + (" key="@ + text::number::decimal(groups[2].buckets.len()) + "/"@
                + text::number::decimal(groups[2].total_buckets as nat))
        }),
{
    lemma_places(facet::facets(events, limit, filters, buckets, None));
}

/// The shown fields are those of the list that are shown, in the order of the list.
pub proof fn law_shown_fields_are_in_the_order_of_the_list(
    keys: Seq<Seq<char>>,
    others: Seq<Seq<char>>,
)
    ensures
        state::keys_among(keys, others) == keys.filter(|key: Seq<char>| others.contains(key)),
    decreases keys.len(),
{
    reveal(Seq::filter);
    if keys.len() > 0 {
        law_shown_fields_are_in_the_order_of_the_list(keys.drop_last(), others);
    }
}

/// The selected property is one of the selected event, the nearest to the one that
/// was selected; details open only for an event.
pub proof fn law_selected_property_is_one_of_the_event(app: AppView)
    requires
        app.selected_property >= 0,
    ensures
        app.properties().len() > 0 ==> 0 <= app.property_synced().selected_property
            < app.properties().len(),
        app.selected_property < app.properties().len() ==> app.property_synced().selected_property
            == app.selected_property,
        app.property_synced().visible == app.visible,
        app.event() is None ==> !app.details_toggled().details_open,
{
}

/// The values of a property are counted when it is chosen, over all retained events
/// that the filter shows without its conditions on the property; the facets are
/// counted anew with them.
pub proof fn law_drilled_down_values_are_those_of_the_filter(app: AppView, key: Seq<char>)
    requires
        text::trim(key).len() > 0,
    ensures
        ({
            let after = app.drilled_down(key);
            let groups = facet::facets(
                app.buffer.events,
                100000,
                app.workflow.filters,
                100,
                Some(key),
            );
            &&& after.facet_place == FacetPlace::Values(key)
            &&& after.facet_root_rows == facets::root_rows(groups)
            &&& after.facet_value_rows == facets::kind_rows(groups, FacetKind::PropertyValue)
            &&& after.facet_value_list.query.len() == 0
            &&& after.facet_value_list.selected == 0
            &&& after.facet_root_list.query == app.facet_root_list.query
            &&& after.workflow == app.workflow
            &&& after.mode == app.mode
        }),
{
}

/// A value of a property is the only one shown where the one condition on the
/// property is that it shows the value.
pub proof fn law_only_value_is_told(workflow: WorkflowView, key: Seq<char>, value: Seq<char>)
    ensures
        workflow.shows_only(key, value) == (workflow.filters.excludes.filter(
            |p: PredicateView| p.key == key,
        ).len() == 0 && workflow.filters.includes.filter(|p: PredicateView| p.key == key) == seq![
            PredicateView { key, value: Some(value) },
        ]),
{
    lemma_keyed(workflow.filters.excludes, key);
    lemma_keyed(workflow.filters.includes, key);
}

proof fn lemma_keyed(predicates: Seq<PredicateView>, key: Seq<char>)
    ensures
        crate::filter::workflow::keyed(predicates, key) == predicates.filter(
            |p: PredicateView| p.key == key,
        ),
    decreases predicates.len(),
{
    reveal(Seq::filter);
    if predicates.len() > 0 {
        lemma_keyed(predicates.drop_last(), key);
    }
}

/// In visual mode the beginning of the selection stays where it is as long as there
/// are enough events; outside it there is none.
pub proof fn law_visual_selection_keeps_its_beginning(app: AppView)
    ensures
        app.mode != Mode::Visual ==> app.anchor_synced().anchor is None,
        app.mode == Mode::Visual && app.anchor is Some && app.anchor->0 < app.count()
            && app.count() > 0 ==> app.anchor_synced().anchor == app.anchor,
        app.mode == Mode::Visual && app.anchor is Some && app.anchor->0 >= app.count()
            && app.count() > 0 ==> app.anchor_synced().anchor == Some(app.count() - 1),
{
}

/// A pinned field that is deleted is neither listed nor shown.
pub proof fn law_deleted_field_is_gone(app: AppView, key: Seq<char>)
    requires
        app.selected_field() == Some(key),
        app.field_rows.no_duplicates(),
        app.field_keys.no_duplicates(),
    ensures
        app.field_deleted().field_rows == app.field_rows.filter(|other: Seq<char>| other != key),
        app.field_deleted().field_keys == app.field_keys.filter(|other: Seq<char>| other != key),
{
    law_removed_key_is_gone_once(app.field_rows, key);
    law_removed_key_is_gone_once(app.field_keys, key);
}

/// The viewer begins with nothing: it follows, shows every event, and has neither
/// marks nor fields.
pub proof fn law_viewer_begins_with_nothing(capacity: int, fields: Seq<Seq<char>>)
    ensures
        ({
            let app = state::start(capacity, fields);
            &&& app.buffer.events.len() == 0
            &&& app.buffer.capacity == capacity
            &&& app.buffer.next == 0
            &&& app.buffer.fields == fields
            &&& app.workflow.filters == filter::no_filter()
            &&& app.workflow.history.len() == 0 && app.workflow.presets.len() == 0
            &&& app.visible.follow && app.visible.selected == 0 && app.visible.backlog == 0
            &&& app.marked.len() == 0
            &&& app.mode == Mode::Normal
            &&& app.notice is None
            &&& app.field_rows.len() == 0 && app.field_keys.len() == 0
            &&& !app.details_open
        }),
{
}

/// The values of a property are told in one line, with the key at its end as far as
/// there is room for it.
pub proof fn law_values_are_told_in_one_line(group: GroupView, key: Seq<char>)
    requires
        !group.window_truncated,
        facets::value_summary_head(group).len() + escape::escape(key).len() <= 80,
    ensures
        facets::value_summary(group, key) == "win="@ + text::number::decimal(
            group.window_records as nat,
        ) + "/"@ + text::number::decimal(group.available_records as nat) + Seq::<char>::empty() + (
        " val="@ + text::number::decimal(group.buckets.len()) + "/"@ + text::number::decimal(
            group.total_buckets as nat,
        )) + " key="@ + escape::escape(key),
{
}

/// A key `g` that waits for another is forgotten by whatever else is done.
pub proof fn law_waiting_key_is_forgotten(
    app: AppView,
    visible: VisibleView,
    kind: PromptKind,
    dialog: DialogKind,
    forward: bool,
)
    ensures
        !app.follow_toggled().pending_g,
        !app.moved(visible).pending_g,
        !app.at_top().pending_g,
        !app.at_bottom().pending_g,
        !app.searched(forward).pending_g,
        !app.prompting(kind).pending_g,
        !app.prompt_cancelled().pending_g,
        !app.palette_opened().pending_g,
        !app.closed().pending_g,
        !app.dialog_opened(dialog).pending_g,
        !app.field_added().pending_g,
        !app.visual_started().pending_g,
        !app.visual_ended().pending_g,
        !app.filters_cleared().pending_g,
        !app.filter_undone().pending_g,
        !app.preset_saved().pending_g,
        !app.marker_toggled().pending_g,
        !app.details_toggled().pending_g,
        !app.property_advanced().pending_g,
        !app.property_reversed().pending_g,
        !app.property_followed().pending_g,
{
}

} // verus!
