//! Reading lines, moving, filtering, marking and copying.
use crate::app::list_state::without_last_char;
use crate::app::state::{self, AppView, YankView};
use crate::app::visible::{self, insert_number, remove_number, VisibleView};
use crate::app::{filter_edit, App, DialogKind, Mode, PromptKind, YankedLines};
use crate::buffer::{self, keep, ChangeView};
use crate::filter::{self, LogFilter};
use crate::model::EventView;
use crate::text::split::join_strings;
use crate::text;
use vstd::prelude::*;

verus! {

broadcast use text::lemma_views_push;

impl App {
    /// Reads a line.
    pub fn push_line(&mut self, line: String)
        requires
            old(self).wf(),
            old(self)@.buffer.next < u64::MAX,
        ensures
            final(self)@ == old(self)@.received(line@),
            final(self).wf(),
            final(self)@.buffer.next <= old(self)@.buffer.next + 1,
    {
        let change = self.buffer.push_line(line);
        let ghost before = old(self)@;
        let ghost after = self.buffer@.events;
        proof {
            visible::lemma_cache_ready(
                before.buffer.events,
                after,
                change@,
                before.workflow.filters,
            );
            visible::law_cache_follows_buffer(
                before.buffer.events,
                after,
                change@,
                before.workflow.filters,
            );
            lemma_marks_kept(before, after, change@);
        }
        let mut i: usize = 0;
        assert(change@.removed.take(0) =~= Seq::<u64>::empty());
        while i < change.removed.len()
            invariant
                i <= change.removed@.len(),
                visible::increasing(self.marked_sequences@),
                self.marked_sequences@ == visible::all_removed(
                    before.marked,
                    change@.removed.take(i as int),
                ),
                self@ == (AppView {
                    buffer: self.buffer@,
                    marked: self.marked_sequences@,
                    ..before
                }),
                self.buffer.wf(),
                self.buffer@.events == after,
                (self.buffer@, change@) == before.buffer.with_line(0, None, line@),
            decreases change.removed@.len() - i,
        {
            remove_number(&mut self.marked_sequences, change.removed[i]);
            i += 1;
            assert(change@.removed.take(i as int).drop_last() =~= change@.removed.take(i - 1));
        }
        assert(change@.removed.take(i as int) =~= change@.removed);
        self.visible.on_line_received(&change, &self.buffer, self.filter_workflow.filters());
        self.sync_selection();
    }

    /// Tells something at the bottom of the screen.
    pub fn set_notice(&mut self, notice: String)
        ensures
            final(self)@ == (AppView { notice: Some(notice@), ..old(self)@ }),
            old(self).wf() ==> final(self).wf(),
    {
        self.notice = Some(notice);
    }

    /// Tells nothing at the bottom of the screen.
    pub fn clear_notice(&mut self)
        ensures
            final(self)@ == (AppView { notice: None, ..old(self)@ }),
            old(self).wf() ==> final(self).wf(),
    {
        self.notice = None;
    }

    /// The present filter, to be changed without a trace in the history. The
    /// shown events are brought in step by `sync_visible_cache`.
    pub fn filters_mut(&mut self) -> (result: &mut LogFilter)
        requires
            old(self).sound(),
        ensures
            result@ == old(self)@.workflow.filters,
            final(self)@ == (AppView {
                workflow: filter::workflow::WorkflowView {
                    filters: final(result)@,
                    ..old(self)@.workflow
                },
                ..old(self)@
            }),
            final(self).sound(),
    {
        self.filter_workflow.filters_mut()
    }

    /// Brings the shown events in step with the filter.
    pub fn sync_visible_cache(&mut self)
        requires
            old(self).sound(),
        ensures
            final(self)@ == old(self)@.filters_synced(),
            final(self).sound(),
            old(self)@.mode != Mode::Visual ==> final(self).wf(),
    {
        self.visible.on_filters_changed(&self.buffer, self.filter_workflow.filters());
    }

    pub(super) fn sync_selection(&mut self)
        requires
            old(self).sound(),
            old(self)@.visible.synced(
                old(self)@.buffer.events,
                old(self)@.workflow.filters,
            ),
        ensures
            final(self)@ == old(self)@.selection_synced(),
            final(self).wf(),
    {
        self.visible.sync_selection(&self.buffer, self.filter_workflow.filters());
        self.sync_selected_property();
        self.sync_visual_anchor();
    }

    fn sync_selected_property(&mut self)
        requires
            old(self).sound(),
        ensures
            final(self)@ == old(self)@.property_synced(),
            final(self).sound(),
            old(self).wf() ==> final(self).wf(),
    {
        let property_len: usize = match self.selected_event() {
            Some(event) => {
                assert(event@.properties.len() == event.properties@.len());
                event.properties.len()
            },
            None => 0,
        };
        if property_len == 0 {
            self.selected_property = 0;
        } else if self.selected_property > property_len - 1 {
            self.selected_property = property_len - 1;
        }
    }

    fn sync_visual_anchor(&mut self)
        requires
            old(self).sound(),
            old(self)@.visible.synced(
                old(self)@.buffer.events,
                old(self)@.workflow.filters,
            ),
            old(self)@.selects(),
        ensures
            final(self)@ == old(self)@.anchor_synced(),
            final(self).wf(),
    {
        let visible_len = self.visible_count();
        if self.mode != Mode::Visual || visible_len == 0 {
            self.visual_anchor = None;
            return ;
        }
        let anchor: usize = match self.visual_anchor {
            Some(anchor) => anchor,
            None => self.selected(),
        };
        self.visual_anchor = if anchor < visible_len - 1 {
            Some(anchor)
        } else {
            Some(visible_len - 1)
        };
    }

    /// Keeps the selection on a screen of some height.
    pub fn sync_log_viewport(&mut self, viewport_height: usize)
        ensures
            final(self)@ == (AppView {
                visible: old(self)@.visible.scrolled(old(self)@.count(), viewport_height as int),
                ..old(self)@
            }),
            old(self).wf() ==> final(self).wf(),
    {
        self.visible.sync_viewport(
            &self.buffer,
            self.filter_workflow.filters(),
            viewport_height,
        );
    }

    /// Moves the selection down.
    pub fn move_down(&mut self, amount: usize)
        requires
            old(self).wf(),
        ensures
            final(self)@ == old(self)@.moved(
                old(self)@.visible.moved_down(old(self)@.count(), amount as int),
            ),
            final(self).wf(),
    {
        self.visible.move_down(&self.buffer, self.filter_workflow.filters(), amount);
        self.pending_g = false;
        self.sync_selected_property();
    }

    /// Moves the selection up.
    pub fn move_up(&mut self, amount: usize)
        requires
            old(self).wf(),
        ensures
            final(self)@ == old(self)@.moved(old(self)@.visible.moved_up(amount as int)),
            final(self).wf(),
    {
        self.visible.move_up(amount);
        self.pending_g = false;
        self.sync_selected_property();
    }

    /// Selects the first event.
    pub fn jump_top(&mut self)
        requires
            old(self).wf(),
        ensures
            final(self)@ == old(self)@.at_top(),
            final(self).wf(),
    {
        self.visible.jump_top();
        self.pending_g = false;
        self.sync_selected_property();
    }

    /// Selects the last event without following.
    pub fn move_to_last_visible(&mut self)
        requires
            old(self).wf(),
        ensures
            final(self)@ == old(self)@.moved(
                VisibleView {
                    follow: false,
                    selected: visible::above(old(self)@.count(), 1),
                    ..old(self)@.visible
                },
            ),
            final(self).wf(),
    {
        self.visible.move_to_last_visible(&self.buffer, self.filter_workflow.filters());
        self.pending_g = false;
        self.sync_selected_property();
    }

    /// Selects the last event and follows.
    pub fn jump_bottom(&mut self)
        requires
            old(self).wf(),
        ensures
            final(self)@ == old(self)@.at_bottom(),
            final(self).wf(),
    {
        self.visible.jump_bottom(&self.buffer, self.filter_workflow.filters());
        self.pending_g = false;
        self.sync_selection();
    }

    /// Ends following, or takes it up again.
    pub fn toggle_follow(&mut self)
        requires
            old(self).wf(),
        ensures
            final(self)@ == old(self)@.follow_toggled(),
            final(self).wf(),
    {
        self.pending_g = false;
        self.visible.toggle_follow(&self.buffer, self.filter_workflow.filters());
    }

    /// Opens a prompt.
    pub fn start_prompt(&mut self, kind: PromptKind)
        requires
            old(self).wf(),
        ensures
            final(self)@ == old(self)@.prompting(kind),
            final(self).wf(),
    {
        self.pending_g = false;
        let prompt = self.filter_workflow.prompt_value(filter_edit(kind), self.selected_property());
        self.prompt = prompt;
        self.editing_property_filter = None;
        self.visual_anchor = None;
        self.mode = Mode::Prompt(kind);
    }

    /// Types a character into the prompt.
    pub fn push_prompt_char(&mut self, value: char)
        ensures
            final(self)@ == (AppView { prompt: old(self)@.prompt.push(value), ..old(self)@ }),
            old(self).wf() ==> final(self).wf(),
    {
        self.prompt.push(value);
    }

    /// Erases the last character of the prompt.
    pub fn pop_prompt_char(&mut self)
        ensures
            final(self)@ == (AppView {
                prompt: if old(self)@.prompt.len() > 0 {
                    old(self)@.prompt.drop_last()
                } else {
                    old(self)@.prompt
                },
                ..old(self)@
            }),
            old(self).wf() ==> final(self).wf(),
    {
        self.prompt = without_last_char(self.prompt.as_str());
    }

    /// Closes the prompt without effect.
    pub fn cancel_prompt(&mut self)
        requires
            old(self).wf(),
        ensures
            final(self)@ == old(self)@.prompt_cancelled(),
            final(self).wf(),
    {
        self.mode = if self.editing_property_filter.is_some() {
            Mode::Dialog(DialogKind::PropertyFilters)
        } else {
            Mode::Normal
        };
        self.prompt = String::new();
        self.pending_g = false;
        self.editing_property_filter = None;
    }

    /// Closes the prompt and applies what was typed.
    pub fn apply_prompt(&mut self)
        requires
            old(self).wf(),
        ensures
            final(self)@ == old(self)@.prompt_applied(),
            final(self).wf(),
    {
        match self.mode {
            Mode::Prompt(kind) => {
                self.filter_workflow.apply_prompt(
                    filter_edit(kind),
                    self.prompt.as_str(),
                    self.editing_property_filter,
                );
                self.sync_visible_cache();
                self.mode = if kind == PromptKind::EditPropertyFilter {
                    Mode::Dialog(DialogKind::PropertyFilters)
                } else {
                    Mode::Normal
                };
                self.prompt = String::new();
                self.editing_property_filter = None;
                self.sync_dialog_selection(DialogKind::PropertyFilters);
                self.sync_selection();
            },
            _ => {},
        }
    }

    /// Forgets a key that waited for another.
    pub fn clear_transient(&mut self)
        ensures
            final(self)@ == (AppView { pending_g: false, ..old(self)@ }),
            old(self).wf() ==> final(self).wf(),
    {
        self.pending_g = false;
    }

    /// Lets several events be selected, from the selected one on.
    pub fn start_visual_selection(&mut self)
        requires
            old(self).wf(),
        ensures
            final(self)@ == old(self)@.visual_started(),
            final(self).wf(),
    {
        match self.visible.start_visual_selection(&self.buffer, self.filter_workflow.filters()) {
            None => {
                self.visual_anchor = None;
                self.pending_g = false;
            },
            Some(anchor) => {
                self.pending_g = false;
                self.visual_anchor = Some(anchor);
                self.mode = Mode::Visual;
            },
        }
    }

    /// Goes back to one selected event.
    pub fn cancel_visual_selection(&mut self)
        requires
            old(self).wf(),
        ensures
            final(self)@ == old(self)@.visual_ended(),
            final(self).wf(),
    {
        self.mode = Mode::Normal;
        self.visual_anchor = None;
        self.pending_g = false;
    }

    /// The raw line of the selected event.
    pub fn yank_selected_line(&self) -> (result: Option<YankedLines>)
        requires
            self.wf(),
        ensures
            text::opt_view(result) == match self@.event() {
                Some(event) => Some(YankView { text: event.raw, count: 1 }),
                None => None,
            },
    {
        match self.selected_event() {
            Some(event) => Some(YankedLines { text: event.raw.clone(), line_count: 1 }),
            None => None,
        }
    }

    fn yank_visible_range(&self, start: usize, end: usize) -> (result: Option<YankedLines>)
        requires
            self.wf(),
            start <= end < self@.count(),
        ensures
            text::opt_view(result) == self@.yanked(start as int, end as int),
    {
        assert(self.visible.cache.len() <= usize::MAX && self.buffer.events.len() <= usize::MAX);
        let events = self.for_each_visible_event(start, end - start + 1);
        let ghost all = visible::indexed_views(events@);
        let mut lines: Vec<String> = Vec::new();
        let mut i: usize = 0;
        assert(text::views(lines@) =~= state::raw_lines(all).take(0));
        while i < events.len()
            invariant
                i <= events@.len(),
                all == visible::indexed_views(events@),
                text::views(lines@) == state::raw_lines(all).take(i as int),
            decreases events@.len() - i,
        {
            let ghost raws = state::raw_lines(all);
            lines.push(events[i].1.raw.clone());
            assert(raws[i as int] == events@[i as int].1.raw@);
            assert(raws.take(i + 1) =~= raws.take(i as int).push(raws[i as int]));
            i += 1;
        }
        assert(text::views(lines@) =~= state::raw_lines(all));
        if lines.len() == 0 {
            return None;
        }
        Some(YankedLines { text: join_strings(&lines, "\n"), line_count: lines.len() })
    }

    /// Takes the raw lines of the selected events, and goes back to one
    /// selected event.
    pub fn yank_visual_selection(&mut self) -> (result: Option<YankedLines>)
        requires
            old(self).wf(),
        ensures
            text::opt_view(result) == old(self)@.visual_yank(),
            final(self)@ == old(self)@.visual_ended(),
            final(self).wf(),
    {
        let yanked = match self.visual_selection_range() {
            Some((start, end)) => self.yank_visible_range(start, end),
            None => None,
        };
        self.cancel_visual_selection();
        yanked
    }

    /// The raw lines of all shown events, each with its end, as they go to a
    /// file.
    pub fn export_visible_logs(&self) -> (result: YankedLines)
        requires
            self.wf(),
        ensures
            result@ == self@.exported(),
    {
        let events = self.for_each_visible_event(0, self.visible_count());
        let ghost all = visible::indexed_views(events@);
        let ghost raws = state::raw_lines(all);
        let mut out: Vec<char> = Vec::new();
        let mut i: usize = 0;
        assert(raws.take(0).len() == 0);
        while i < events.len()
            invariant
                i <= events@.len(),
                all == visible::indexed_views(events@),
                raws == state::raw_lines(all),
                out@ == state::ended_lines(raws.take(i as int)),
            decreases events@.len() - i,
        {
            text::push_str(&mut out, events[i].1.raw.as_str());
            out.push('\n');
            assert(raws[i as int] == events@[i as int].1.raw@);
            assert(raws.take(i + 1).drop_last() =~= raws.take(i as int));
            assert(out@ =~= state::ended_lines(raws.take(i as int)) + raws[i as int].push('\n'));
            i += 1;
        }
        assert(raws.take(i as int) =~= raws);
        YankedLines { text: text::string_of(out.as_slice()), line_count: events.len() }
    }

    /// Drops every condition of the filter.
    pub fn clear_filters(&mut self)
        requires
            old(self).wf(),
        ensures
            final(self)@ == old(self)@.filters_cleared(),
            final(self).wf(),
    {
        self.filter_workflow.clear();
        self.sync_visible_cache();
        self.pending_g = false;
        self.sync_selection();
    }

    /// Goes back to the filter before the last change.
    pub fn undo_filter_change(&mut self)
        requires
            old(self).wf(),
        ensures
            final(self)@ == old(self)@.filter_undone(),
            final(self).wf(),
    {
        self.pending_g = false;
        if !self.filter_workflow.undo() {
            return ;
        }
        self.sync_visible_cache();
        self.sync_selection();
    }

    /// Saves the filter.
    pub fn save_filter_preset(&mut self)
        requires
            old(self).wf(),
        ensures
            final(self)@ == old(self)@.preset_saved(),
            final(self).wf(),
    {
        self.pending_g = false;
        self.filter_workflow.save_preset();
        self.sync_dialog_selection(DialogKind::FilterPresets);
    }

    /// Sets the mark of the selected event, or takes it away.
    pub fn toggle_selected_marker(&mut self)
        requires
            old(self).wf(),
        ensures
            final(self)@ == old(self)@.marker_toggled(),
            final(self).wf(),
    {
        self.pending_g = false;
        let sequence: u64 = match self.selected_event() {
            Some(event) => event.sequence,
            None => {
                return ;
            },
        };
        proof {
            lemma_selected_is_held(self@);
            visible::lemma_number_removed(self@.marked, sequence);
            if !self@.marked.contains(sequence) {
                visible::lemma_number_inserted(self@.marked, sequence);
            }
            lemma_marks_toggled(self@.buffer.events, self@.marked, sequence);
        }
        if self.is_marked(sequence) {
            remove_number(&mut self.marked_sequences, sequence);
        } else {
            insert_number(&mut self.marked_sequences, sequence);
        }
    }

    /// Opens the details of the selected event, or closes them.
    pub fn toggle_details(&mut self)
        requires
            old(self).wf(),
        ensures
            final(self)@ == old(self)@.details_toggled(),
            final(self).wf(),
    {
        self.pending_g = false;
        let open = !self.details_open && self.selected_event().is_some();
        self.details_open = open;
        self.sync_selected_property();
    }

    /// Selects the next property.
    pub fn next_property(&mut self)
        requires
            old(self).wf(),
        ensures
            final(self)@ == old(self)@.property_advanced(),
            final(self).wf(),
    {
        self.pending_g = false;
        let selected: usize = match self.selected_event() {
            None => 0,
            Some(event) => {
                assert(event@.properties.len() == event.properties@.len());
                if event.properties.len() == 0 {
                    self.selected_property
                } else if self.selected_property < event.properties.len() - 1 {
                    self.selected_property + 1
                } else {
                    event.properties.len() - 1
                }
            },
        };
        self.selected_property = selected;
    }

    /// Selects the previous property.
    pub fn previous_property(&mut self)
        requires
            old(self).wf(),
        ensures
            final(self)@ == old(self)@.property_reversed(),
            final(self).wf(),
    {
        self.pending_g = false;
        self.selected_property = self.selected_property.saturating_sub(1);
    }

    /// Shows only events that show what the selected property shows.
    pub fn follow_selected_property(&mut self)
        requires
            old(self).wf(),
        ensures
            final(self)@ == old(self)@.property_followed(),
            final(self).wf(),
    {
        self.pending_g = false;
        let property = match self.selected_property() {
            Some(property) => property.clone(),
            None => {
                return ;
            },
        };
        self.filter_workflow.follow_property(&property);
        self.sync_visible_cache();
        self.sync_selection();
    }

    /// Takes the key `g`: twice it goes to the top.
    pub fn handle_g(&mut self)
        requires
            old(self).wf(),
        ensures
            final(self)@ == old(self)@.g_pressed(),
            final(self).wf(),
    {
        if self.pending_g {
            self.jump_top();
        } else {
            self.pending_g = true;
        }
    }

    /// Selects the next match.
    pub fn next_search_match(&mut self)
        requires
            old(self).wf(),
        ensures
            final(self)@ == old(self)@.searched(true),
            final(self).wf(),
    {
        self.move_to_search_match(true);
    }

    /// Selects the previous match.
    pub fn previous_search_match(&mut self)
        requires
            old(self).wf(),
        ensures
            final(self)@ == old(self)@.searched(false),
            final(self).wf(),
    {
        self.move_to_search_match(false);
    }

    fn move_to_search_match(&mut self, forward: bool)
        requires
            old(self).wf(),
        ensures
            final(self)@ == old(self)@.searched(forward),
            final(self).wf(),
    {
        self.pending_g = false;
        self.visible.move_to_search_match(
            &self.buffer,
            self.filter_workflow.filters(),
            forward,
        );
        self.sync_selected_property();
    }
}

/// The marks that are left after a line are in order and on events that are
/// there.
proof fn lemma_marks_kept(app: AppView, after: Seq<EventView>, change: ChangeView)
    requires
        app.consistent(),
        buffer::in_sequence(after),
        keep::accounts(app.buffer.events, after, change),
    ensures
        visible::increasing(visible::all_removed(app.marked, change.removed)),
        forall|i: int|
            0 <= i < visible::all_removed(app.marked, change.removed).len() ==> buffer::holds(
                after,
                #[trigger] visible::all_removed(app.marked, change.removed)[i],
            ),
{
    visible::lemma_all_removed(app.marked, change.removed);
    let kept = visible::all_removed(app.marked, change.removed);
    assert forall|i: int| 0 <= i < kept.len() implies buffer::holds(after, #[trigger] kept[i]) by {
        assert(kept.contains(kept[i]));
        assert(app.marked.contains(kept[i]));
        let k = choose|k: int| 0 <= k < app.marked.len() && app.marked[k] == kept[i];
        assert(buffer::holds(app.buffer.events, app.marked[k]));
        buffer::lemma_sequence_index(app.buffer.events, kept[i]);
        let at = buffer::sequence_index(app.buffer.events, kept[i]);
        assert(app.buffer.events[at].sequence == kept[i]);
    }
}

/// The selected event is one of the buffer.
proof fn lemma_selected_is_held(app: AppView)
    requires
        app.valid(),
        app.event() is Some,
    ensures
        buffer::holds(app.buffer.events, app.event()->0.sequence),
{
    let events = app.buffer.events;
    if app.workflow.filters.active() {
        let sequence = app.visible.cache[app.visible.selected];
        buffer::lemma_sequence_index(events, sequence);
        buffer::lemma_sequence_at(events, buffer::sequence_index(events, sequence));
    } else {
        buffer::lemma_sequence_at(events, app.visible.selected);
    }
}

/// A mark set on an event that is there, or taken away, leaves the marks on
/// events that are there.
proof fn lemma_marks_toggled(events: Seq<EventView>, marked: Seq<u64>, sequence: u64)
    requires
        buffer::holds(events, sequence),
        visible::increasing(marked),
        forall|i: int| 0 <= i < marked.len() ==> buffer::holds(events, #[trigger] marked[i]),
    ensures
        forall|i: int|
            0 <= i < visible::number_removed(marked, sequence).len() ==> buffer::holds(
                events,
                #[trigger] visible::number_removed(marked, sequence)[i],
            ),
        !marked.contains(sequence) ==> forall|i: int|
            0 <= i < visible::number_inserted(marked, sequence).len() ==> buffer::holds(
                events,
                #[trigger] visible::number_inserted(marked, sequence)[i],
            ),
{
    visible::lemma_number_removed(marked, sequence);
    let less = visible::number_removed(marked, sequence);
    assert forall|i: int| 0 <= i < less.len() implies buffer::holds(events, #[trigger] less[i]) by {
        assert(less.contains(less[i]));
        assert(marked.contains(less[i]));
    }
    let more = visible::number_inserted(marked, sequence);
    if !marked.contains(sequence) {
        visible::lemma_number_inserted(marked, sequence);
        assert forall|i: int| 0 <= i < more.len() implies buffer::holds(
            events,
            #[trigger] more[i],
        ) by {
            assert(more.contains(more[i]));
            assert(marked.contains(more[i]) || more[i] == sequence);
        }
    }
}

} // verus!
