//! What holds of the viewer, whatever is done with it.
use crate::app::facets::FacetRowView;
use crate::app::list_state::ListView;
use crate::app::state::{self, AppView};
use crate::app::visible;
use crate::app::{facets, App, DialogKind, Mode};
use crate::buffer::{self, keep};
use crate::filter::{self, workflow, FilterView};
use crate::text;
use vstd::prelude::*;

verus! {

/// Between operations the state is valid: the buffer is, the shown events are
/// those of the filter, and every mark is on an event that is there.
pub proof fn law_state_is_valid(app: &App)
    requires
        app.wf(),
    ensures
        app@.valid(),
{
}

/// What is shown is what the filter lets through, in the order of the events.
pub proof fn law_shown_events_match(app: AppView, index: int)
    requires
        app.valid(),
    ensures
        app.count() == visible::shown_events(app.buffer.events, app.workflow.filters).len(),
        app.event_at(index) == state::item_at(
            visible::shown_events(app.buffer.events, app.workflow.filters),
            index,
        ),
{
    visible::law_view_shows_the_shown_events(
        app.visible,
        app.buffer.events,
        app.workflow.filters,
        index,
    );
}

/// The selection is always a shown event, and the newest one while following.
/// Where nothing is shown it is at the beginning.
pub proof fn law_selection_is_shown(app: &App)
    requires
        app.wf(),
    ensures
        app@.count() == 0 ==> app@.visible.selected == 0,
        app@.count() > 0 ==> 0 <= app@.visible.selected < app@.count(),
        app@.count() > 0 && app@.visible.follow ==> app@.visible.selected == app@.count() - 1,
{
    law_state_is_valid(app);
}

/// While following, the newest shown event is selected when a line comes;
/// otherwise the lines that came are counted.
pub proof fn law_line_is_followed(app: AppView, line: Seq<char>)
    requires
        app.valid(),
        app.buffer.next < u64::MAX,
    ensures
        app.received(line).visible.follow == app.visible.follow,
        app.visible.follow && app.received(line).count() > 0 ==> app.received(
            line,
        ).visible.selected == app.received(line).count() - 1,
        !app.visible.follow ==> app.received(line).visible.backlog == visible::min(
            app.visible.backlog + 1,
            usize::MAX as int,
        ),
{
}

/// A mark goes with its event, and only then: after a line the marks are those
/// that were there and whose events still are.
pub proof fn law_marks_leave_with_their_events(app: AppView, line: Seq<char>, sequence: u64)
    requires
        app.valid(),
        app.buffer.next < u64::MAX,
    ensures
        app.received(line).marked.contains(sequence) <==> app.marked.contains(sequence)
            && buffer::holds(app.received(line).buffer.events, sequence),
{
    let before = app.buffer.events;
    let (after_buffer, change) = app.buffer.with_line(0, None, line);
    let after = after_buffer.events;
    keep::law_line_keeps_buffer_valid(app.buffer, 0, None, line);
    keep::law_line_is_accounted_for(app.buffer, 0, None, line);
    visible::lemma_all_removed(app.marked, change.removed);
    if app.marked.contains(sequence) {
        let k = choose|k: int| 0 <= k < app.marked.len() && app.marked[k] == sequence;
        assert(buffer::holds(before, app.marked[k]));
        buffer::lemma_sequence_index(before, sequence);
        assert(before[buffer::sequence_index(before, sequence)].sequence == sequence);
        assert(buffer::holds(after, sequence) || change.removed.contains(sequence));
    }
}

/// Marking an event twice leaves the marks as they were.
pub proof fn law_marking_twice_changes_nothing(app: AppView)
    requires
        app.valid(),
    ensures
        app.marker_toggled().marker_toggled() == (AppView { pending_g: false, ..app }),
{
    match app.event() {
        Some(event) => {
            let sequence = event.sequence;
            if app.marked.contains(sequence) {
                visible::lemma_number_removed(app.marked, sequence);
                let less = visible::number_removed(app.marked, sequence);
                visible::lemma_number_inserted(less, sequence);
                let more = visible::number_inserted(less, sequence);
                assert forall|n: u64| more.contains(n) <==> app.marked.contains(n) by {
                    assert(less.contains(n) <==> app.marked.contains(n) && n != sequence);
                }
                visible::lemma_same_numbers(more, app.marked);
            } else {
                visible::lemma_number_inserted(app.marked, sequence);
                let more = visible::number_inserted(app.marked, sequence);
                visible::lemma_number_removed(more, sequence);
                let less = visible::number_removed(more, sequence);
                assert(more.contains(sequence));
                assert forall|n: u64| less.contains(n) <==> app.marked.contains(n) by {
                    assert(more.contains(n) <==> app.marked.contains(n) || n == sequence);
                }
                visible::lemma_same_numbers(less, app.marked);
            }
        },
        None => {},
    }
}

/// Copying in visual mode takes one line of each selected event, no more.
pub proof fn law_copying_takes_the_selected_events(app: AppView)
    requires
        app.valid(),
    ensures
        match (app.visual_range(), app.visual_yank()) {
            (Some((start, end)), Some(yank)) => 0 <= start <= end < app.count() && yank.count == end
                - start + 1,
            (None, None) => true,
            _ => false,
        },
{
    match app.visual_range() {
        Some((start, end)) => {
            lemma_window_is_full(app, start, end + 1);
        },
        None => {},
    }
}

/// What is exported has a line of every shown event.
pub proof fn law_export_takes_every_shown_event(app: AppView)
    requires
        app.valid(),
    ensures
        app.exported().count == app.count(),
{
    lemma_window_is_full(app, 0, app.count());
}

proof fn lemma_window_is_full(app: AppView, start: int, end: int)
    requires
        app.valid(),
        0 <= start <= end <= app.count(),
    ensures
        app.visible.window(app.buffer.events, app.workflow.filters, start, end).len() == end
            - start,
    decreases end - start,
{
    if start < end {
        lemma_window_is_full(app, start, end - 1);
        law_shown_events_match(app, end - 1);
    }
}

/// Undoing a change of the filter brings back the filter before it, and shows
/// what was shown then, whatever the change was.
pub proof fn law_undo_shows_the_same_events(app: AppView, after: AppView, filters: FilterView)
    requires
        app.valid(),
        filters != app.workflow.filters,
        after.buffer == app.buffer,
        after.workflow == app.workflow.changed(filters),
    ensures
        after.filter_undone().workflow == app.workflow,
        after.filter_undone().visible.cache == app.visible.cache,
{
    workflow::law_undo_restores(app.workflow, filters);
}

/// Every change of the filter can be undone: what is typed, what clears it, a
/// property that is followed.
pub proof fn law_filter_changes_can_be_undone(app: AppView)
    requires
        app.valid(),
    ensures
        exists|filters: FilterView| #[trigger]
            app.workflow.changed(filters) == app.filters_cleared().workflow,
        exists|filters: FilterView| #[trigger]
            app.workflow.changed(filters) == app.prompt_applied().workflow,
        exists|filters: FilterView| #[trigger]
            app.workflow.changed(filters) == app.property_followed().workflow,
        app.filters_cleared().buffer == app.buffer,
        app.prompt_applied().buffer == app.buffer,
        app.property_followed().buffer == app.buffer,
{
    let followed = app.property_followed().workflow.filters;
    assert(app.workflow.changed(followed) == app.property_followed().workflow);
    let typed = match app.mode {
        Mode::Prompt(kind) => app.workflow.prompted(
            state::edit_of(kind),
            app.prompt,
            app.editing,
        ),
        _ => app.workflow.filters,
    };
    assert(app.workflow.changed(typed) == app.prompt_applied().workflow);
    assert(app.workflow.changed(filter::no_filter()) == app.filters_cleared().workflow);
}

/// Following a property or applying any other change keeps every shown event
/// one that the new filter lets through, and the selection one of them.
pub proof fn law_refiltering_selects_a_shown_event(app: AppView, workflow: workflow::WorkflowView)
    requires
        app.valid(),
    ensures
        app.refiltered(workflow).valid(),
        app.refiltered(workflow).count() > 0 ==> 0 <= app.refiltered(workflow).visible.selected
            < app.refiltered(workflow).count(),
{
}

/// Lines that come leave the listed facets as they were counted.
pub proof fn law_lines_leave_the_facets(app: AppView, lines: Seq<Seq<char>>)
    ensures
        ({
            let after = app.received_all(lines);
            &&& after.facet_root_rows == app.facet_root_rows
            &&& after.facet_value_rows == app.facet_value_rows
            &&& after.facet_root_summary == app.facet_root_summary
            &&& after.facet_value_summary == app.facet_value_summary
            &&& after.facet_root_list == app.facet_root_list
            &&& after.facet_value_list == app.facet_value_list
            &&& after.facet_place == app.facet_place
            &&& after.facet_rows() == app.facet_rows()
            &&& after.facet_summary() == app.facet_summary()
        }),
    decreases lines.len(),
{
    if lines.len() > 0 {
        law_lines_leave_the_facets(app, lines.drop_last());
    }
}

/// Whether the items of a list are items of another, in its order.
pub open spec fn is_part<T>(items: Seq<T>, whole: Seq<T>) -> bool {
    exists|places: Seq<int>| #[trigger] places_in(items, whole, places)
}

/// Whether items stand at increasing places of a list.
pub open spec fn places_in<T>(items: Seq<T>, whole: Seq<T>, places: Seq<int>) -> bool {
    &&& places.len() == items.len()
    &&& forall|i: int|
        0 <= i < places.len() ==> 0 <= #[trigger] places[i] < whole.len() && items[i]
            == whole[places[i]]
    &&& forall|i: int, j: int| 0 <= i < j < places.len() ==> places[i] < places[j]
}

/// The facets are counted once, when their dialog is opened: whatever lines come,
/// its rows and its summary stay, and a search only leaves some of the rows out.
pub proof fn law_facets_are_a_snapshot(app: AppView, lines: Seq<Seq<char>>, list: ListView)
    ensures
        ({
            let opened = app.dialog_opened(DialogKind::Facets);
            let later = opened.received_all(lines);
            let searched = later.queried(DialogKind::Facets, list);
            &&& later.facet_rows() == opened.facet_rows()
            &&& later.facet_summary() == opened.facet_summary()
            &&& searched.facet_summary() == opened.facet_summary()
            &&& is_part(searched.facet_rows(), opened.facet_rows())
        }),
{
    let opened = app.dialog_opened(DialogKind::Facets);
    let later = opened.received_all(lines);
    let searched = later.queried(DialogKind::Facets, list);
    law_lines_leave_the_facets(opened, lines);
    let none = text::trim(opened.list(DialogKind::Facets).query);
    assert(none.len() == 0);
    lemma_empty_query(opened.active_facet_rows(), none);
    let places = lemma_matching_rows(
        later.active_facet_rows(),
        text::trim(searched.list(DialogKind::Facets).query),
    );
    assert(places_in(searched.facet_rows(), opened.facet_rows(), places));
}

proof fn lemma_empty_query(rows: Seq<FacetRowView>, query: Seq<char>)
    requires
        query.len() == 0,
    ensures
        facets::rows_matching(rows, query) == rows,
    decreases rows.len(),
{
    if rows.len() > 0 {
        lemma_empty_query(rows.drop_last(), query);
        assert(rows.drop_last().push(rows.last()) =~= rows);
    }
}

proof fn lemma_matching_rows(rows: Seq<FacetRowView>, query: Seq<char>) -> (places: Seq<int>)
    ensures
        places_in(facets::rows_matching(rows, query), rows, places),
    decreases rows.len(),
{
    if rows.len() == 0 {
        Seq::empty()
    } else {
        let front = lemma_matching_rows(rows.drop_last(), query);
        if facets::row_matches(rows.last(), query) {
            front.push(rows.len() - 1)
        } else {
            front
        }
    }
}

/// What a line leaves in the buffer depends on the buffer alone, not on filters
/// or on following, and these change nothing of what is retained.
pub proof fn law_filters_and_pause_keep_what_is_retained(
    app: AppView,
    other: AppView,
    line: Seq<char>,
)
    ensures
        app.buffer == other.buffer ==> app.received(line).buffer == other.received(line).buffer,
        app.follow_toggled().buffer == app.buffer,
        app.at_bottom().buffer == app.buffer,
        app.prompt_applied().buffer == app.buffer,
        app.filters_cleared().buffer == app.buffer,
        app.filter_undone().buffer == app.buffer,
        app.property_followed().buffer == app.buffer,
        app.property_filter_deleted().buffer == app.buffer,
        app.preset_applied().buffer == app.buffer,
        app.facet_activated().buffer == app.buffer,
        app.filters_synced().buffer == app.buffer,
{
}

/// Going from the values of a property back to the facets finds the selected
/// facet again, where it is still there.
pub proof fn law_facet_selection_is_restored(app: AppView, key: Seq<char>)
    requires
        app.facet_place is Root,
        text::trim(key).len() > 0,
    ensures
        match app.selected_facet_row() {
            Some(row) => {
                let back = app.drilled_down(key).back_to_root();
                let rows = facets::rows_matching(
                    back.facet_root_rows,
                    text::trim(back.facet_root_list.query),
                );
                facets::row_index(rows, row.facet, row.value) < rows.len() ==> match
                back.selected_facet_row() {
                    Some(found) => found.facet == row.facet && found.value == row.value,
                    None => false,
                }
            },
            None => true,
        },
{
    match app.selected_facet_row() {
        Some(row) => {
            let back = app.drilled_down(key).back_to_root();
            let rows = facets::rows_matching(
                back.facet_root_rows,
                text::trim(back.facet_root_list.query),
            );
            facets::lemma_row_index(rows, row.facet, row.value);
        },
        None => {},
    }
}

} // verus!
