//! The palette and the dialogs.
use crate::app::facets::{
    self, facet_group, facet_group_rows, facet_root_rows, facet_root_summary, facet_value_summary,
    find_row, matching_rows, FacetRowView,
};
use crate::app::fields::{self, copy_among, drop_key, key_position};
use crate::app::list_state::{without_last_char, SearchableListState};
use crate::app::state::{self, AppView};
use crate::app::{trimmed, App, DialogKind, FacetDialogView, Mode, PromptKind};
use crate::commands::COMMAND_COUNT;
use crate::facet::{
    self, aggregate_facets, FacetGroup, FacetKind, FacetOptions, MAX_FACET_BUCKET_LIMIT,
    MAX_FACET_RECORD_LIMIT,
};
use crate::model::{Level, LogEvent};
use crate::text::{self, copy_str, copy_strings};
use vstd::prelude::*;

verus! {

broadcast use text::lemma_views_push;

impl App {
    /// Opens the palette.
    pub fn open_palette(&mut self)
        requires
            old(self).wf(),
        ensures
            final(self)@ == old(self)@.palette_opened(),
            final(self).wf(),
    {
        self.mode = Mode::Palette;
        self.prompt = String::new();
        self.pending_g = false;
        self.visual_anchor = None;
        self.palette.sync(COMMAND_COUNT);
    }

    /// Closes the palette.
    pub fn close_palette(&mut self)
        requires
            old(self).wf(),
        ensures
            final(self)@ == old(self)@.closed(),
            final(self).wf(),
    {
        self.mode = Mode::Normal;
        self.pending_g = false;
    }

    /// Opens the palette, or closes it.
    pub fn toggle_palette(&mut self)
        requires
            old(self).wf(),
        ensures
            final(self)@ == if old(self)@.mode == Mode::Palette {
                old(self)@.closed()
            } else {
                old(self)@.palette_opened()
            },
            final(self).wf(),
    {
        if self.mode == Mode::Palette {
            self.close_palette();
        } else {
            self.open_palette();
        }
    }

    /// Moves the selection of the palette down.
    pub fn move_palette_down(&mut self, amount: usize)
        ensures
            final(self)@ == (AppView {
                palette: old(self)@.palette.moved_down(amount as int, COMMAND_COUNT as int),
                ..old(self)@
            }),
            old(self).wf() ==> final(self).wf(),
    {
        self.palette.move_down(amount, COMMAND_COUNT);
    }

    /// Moves the selection of the palette up.
    pub fn move_palette_up(&mut self, amount: usize)
        ensures
            final(self)@ == (AppView {
                palette: old(self)@.palette.moved_up(amount as int),
                ..old(self)@
            }),
            old(self).wf() ==> final(self).wf(),
    {
        self.palette.move_up(amount);
    }

    fn dialog_state_mut(&mut self, kind: DialogKind) -> (result: &mut SearchableListState)
        ensures
            result@ == old(self)@.list(kind),
            final(self)@ == old(self)@.with_list(kind, final(result)@),
            final(self).buffer == old(self).buffer,
    {
        match kind {
            DialogKind::PropertyFilters => &mut self.property_filters,
            DialogKind::MessageFields => &mut self.message_fields,
            DialogKind::FilterPresets => &mut self.filter_preset_list,
            DialogKind::Sources => &mut self.sources,
            DialogKind::Facets => match &self.facet_view {
                FacetDialogView::Root => &mut self.facet_root_list,
                FacetDialogView::PropertyValues { .. } => &mut self.facet_value_list,
            },
        }
    }

    pub(super) fn sync_dialog_selection(&mut self, kind: DialogKind)
        ensures
            final(self)@ == old(self)@.dialog_synced(kind),
            old(self).wf() ==> final(self).wf(),
            old(self).sound() ==> final(self).sound(),
    {
        let len = self.dialog_len(kind);
        self.dialog_state_mut(kind).sync(len);
    }

    /// Opens a dialog.
    pub fn open_dialog(&mut self, kind: DialogKind)
        requires
            old(self).wf(),
        ensures
            final(self)@ == old(self)@.dialog_opened(kind),
            final(self).wf(),
    {
        if kind == DialogKind::Facets {
            self.open_facet_dialog();
            return ;
        }
        self.mode = Mode::Dialog(kind);
        self.prompt = String::new();
        self.pending_g = false;
        self.visual_anchor = None;
        if kind == DialogKind::PropertyFilters {
            self.editing_property_filter = None;
        }
        self.sync_dialog_selection(kind);
    }

    /// Closes a dialog.
    pub fn close_dialog(&mut self)
        requires
            old(self).wf(),
        ensures
            final(self)@ == old(self)@.closed(),
            final(self).wf(),
    {
        self.mode = Mode::Normal;
        self.pending_g = false;
    }

    /// Moves the selection of a dialog down.
    pub fn move_dialog_down(&mut self, kind: DialogKind, amount: usize)
        ensures
            final(self)@ == old(self)@.with_list(
                kind,
                old(self)@.list(kind).moved_down(amount as int, old(self)@.dialog_len(kind)),
            ),
            old(self).wf() ==> final(self).wf(),
    {
        let len = self.dialog_len(kind);
        self.dialog_state_mut(kind).move_down(amount, len);
    }

    /// Moves the selection of a dialog up.
    pub fn move_dialog_up(&mut self, kind: DialogKind, amount: usize)
        ensures
            final(self)@ == old(self)@.with_list(
                kind,
                old(self)@.list(kind).moved_up(amount as int),
            ),
            old(self).wf() ==> final(self).wf(),
    {
        self.dialog_state_mut(kind).move_up(amount);
    }

    /// Types a character into the search of a dialog.
    pub fn push_dialog_query_char(&mut self, kind: DialogKind, value: char)
        ensures
            final(self)@ == old(self)@.queried(kind, old(self)@.list(kind).typed(value)),
            old(self).wf() ==> final(self).wf(),
    {
        let mut query = copy_str(self.dialog_query(kind));
        query.push(value);
        let len = self.dialog_len_for_query(kind, trimmed(query.as_str()).as_str());
        let state = self.dialog_state_mut(kind);
        state.push_query_char(value);
        state.sync(len);
    }

    /// Erases the last character of the search of a dialog.
    pub fn pop_dialog_query_char(&mut self, kind: DialogKind)
        ensures
            final(self)@ == old(self)@.queried(kind, old(self)@.list(kind).erased()),
            old(self).wf() ==> final(self).wf(),
    {
        let query = without_last_char(self.dialog_query(kind));
        let len = self.dialog_len_for_query(kind, trimmed(query.as_str()).as_str());
        let state = self.dialog_state_mut(kind);
        state.pop_query_char();
        state.sync(len);
    }

    /// Adds the key of the selected property to the fields shown with each
    /// message.
    pub fn add_selected_message_field(&mut self)
        requires
            old(self).wf(),
        ensures
            final(self)@ == old(self)@.field_added(),
            final(self).wf(),
    {
        self.pending_g = false;
        let key = match self.selected_property() {
            Some(property) => property.key.clone(),
            None => {
                return ;
            },
        };
        proof {
            fields::lemma_key_index(self@.field_rows, key@);
            fields::lemma_field_added(self@, key@);
        }
        let at = key_position(&self.message_field_list, key.as_str());
        assert(self@.field_rows.len() == self.message_field_list@.len());
        if at == self.message_field_list.len() {
            self.message_field_list.push(key.clone());
            self.message_field_keys.push(key);
        } else {
            self.show_field(key);
        }
        self.sync_dialog_selection(DialogKind::MessageFields);
    }

    /// Edits the selected condition.
    pub fn start_property_filter_edit(&mut self)
        requires
            old(self).wf(),
        ensures
            final(self)@ == old(self)@.editing_selected(),
            final(self).wf(),
    {
        let row = match self.selected_property_filter_row() {
            Some(row) => row,
            None => {
                return ;
            },
        };
        let prompt = match self.filter_workflow.property_filter(row.id) {
            Some(predicate) => Some(predicate.summary_for(row.id.exclude)),
            None => None,
        };
        match prompt {
            None => {
                self.sync_dialog_selection(DialogKind::PropertyFilters);
            },
            Some(prompt) => {
                self.prompt = prompt;
                self.editing_property_filter = Some(row.id);
                self.visual_anchor = None;
                self.mode = Mode::Prompt(PromptKind::EditPropertyFilter);
                self.pending_g = false;
            },
        }
    }

    /// Activates the selected row of a dialog.
    pub fn activate_selected_dialog_row(&mut self, kind: DialogKind)
        requires
            old(self).wf(),
        ensures
            final(self)@ == old(self)@.row_activated(kind),
            final(self).wf(),
    {
        proof {
            reveal(AppView::row_activated);
        }
        match kind {
            DialogKind::PropertyFilters => self.start_property_filter_edit(),
            DialogKind::MessageFields => self.toggle_selected_message_field(),
            DialogKind::FilterPresets => self.apply_selected_filter_preset(),
            DialogKind::Sources => {},
            DialogKind::Facets => self.activate_selected_facet_row(),
        }
    }

    /// Deletes the selected row of a dialog. Among the values of a property it
    /// goes back to the facets of all events.
    pub fn delete_selected_dialog_row(&mut self, kind: DialogKind)
        requires
            old(self).wf(),
        ensures
            final(self)@ == old(self)@.row_deleted(kind),
            final(self).wf(),
    {
        proof {
            reveal(AppView::row_deleted);
        }
        match kind {
            DialogKind::PropertyFilters => self.delete_selected_property_filter(),
            DialogKind::MessageFields => self.delete_selected_message_field(),
            DialogKind::FilterPresets => self.delete_selected_filter_preset(),
            DialogKind::Sources => {},
            DialogKind::Facets => self.return_to_facet_root(),
        }
    }

    fn delete_selected_property_filter(&mut self)
        requires
            old(self).wf(),
        ensures
            final(self)@ == old(self)@.property_filter_deleted(),
            final(self).wf(),
    {
        let row = match self.selected_property_filter_row() {
            Some(row) => row,
            None => {
                return ;
            },
        };
        let _ = self.filter_workflow.remove_property_filter(row.id);
        self.sync_visible_cache();
        self.sync_dialog_selection(DialogKind::PropertyFilters);
        self.sync_selection();
    }

    fn delete_selected_message_field(&mut self)
        requires
            old(self).wf(),
        ensures
            final(self)@ == old(self)@.field_deleted(),
            final(self).wf(),
    {
        let key = match self.selected_message_field_key() {
            Some(key) => copy_str(key),
            None => {
                return ;
            },
        };
        proof {
            fields::lemma_field_deleted(self@, key@);
        }
        drop_key(&mut self.message_field_list, key.as_str());
        drop_key(&mut self.message_field_keys, key.as_str());
        self.sync_dialog_selection(DialogKind::MessageFields);
    }

    fn show_field(&mut self, key: String)
        ensures
            final(self)@ == (AppView {
                field_keys: old(self)@.with_field(key@),
                ..old(self)@
            }),
            final(self).buffer == old(self).buffer,
    {
        let mut keys = copy_strings(&self.message_field_keys);
        keys.push(key);
        self.message_field_keys = copy_among(&self.message_field_list, &keys);
    }

    fn toggle_selected_message_field(&mut self)
        requires
            old(self).wf(),
        ensures
            final(self)@ == old(self)@.field_toggled(),
            final(self).wf(),
    {
        let key = match self.selected_message_field_key() {
            Some(key) => copy_str(key),
            None => {
                return ;
            },
        };
        proof {
            fields::lemma_key_index(self@.field_keys, key@);
            fields::lemma_field_toggled(self@, key@);
        }
        let at = key_position(&self.message_field_keys, key.as_str());
        assert(self@.field_keys.len() == self.message_field_keys@.len());
        if at < self.message_field_keys.len() {
            drop_key(&mut self.message_field_keys, key.as_str());
        } else {
            self.show_field(key);
        }
    }

    fn apply_selected_filter_preset(&mut self)
        requires
            old(self).wf(),
        ensures
            final(self)@ == old(self)@.preset_applied(),
            final(self).wf(),
    {
        let row = match self.selected_filter_preset_row() {
            Some(row) => row,
            None => {
                return ;
            },
        };
        if !self.filter_workflow.apply_preset(row.index) {
            self.sync_dialog_selection(DialogKind::FilterPresets);
            return ;
        }
        self.sync_visible_cache();
        self.sync_selection();
        self.close_dialog();
    }

    fn delete_selected_filter_preset(&mut self)
        requires
            old(self).wf(),
        ensures
            final(self)@ == old(self)@.preset_deleted(),
            final(self).wf(),
    {
        let row = match self.selected_filter_preset_row() {
            Some(row) => row,
            None => {
                return ;
            },
        };
        let _ = self.filter_workflow.delete_preset(row.index);
        self.sync_dialog_selection(DialogKind::FilterPresets);
    }

    fn open_facet_dialog(&mut self)
        requires
            old(self).wf(),
        ensures
            final(self)@ == old(self)@.facets_opened(),
            final(self).wf(),
    {
        let groups = self.aggregate_facet_snapshot(None);
        self.facet_root_rows = facet_root_rows(&groups);
        self.facet_root_summary = facet_root_summary(&groups);
        self.facet_value_rows = Vec::new();
        self.facet_value_summary = String::new();
        self.facet_root_list = SearchableListState::default();
        self.facet_value_list = SearchableListState::default();
        self.facet_view = FacetDialogView::Root;
        self.mode = Mode::Dialog(DialogKind::Facets);
        self.prompt = String::new();
        self.pending_g = false;
        self.visual_anchor = None;
        assert(text::views(self.facet_value_rows@) =~= Seq::<FacetRowView>::empty());
        self.sync_dialog_selection(DialogKind::Facets);
    }

    fn aggregate_facet_snapshot(&self, property_key: Option<&str>) -> (result: Vec<FacetGroup>)
        requires
            property_key is Some ==> text::trim(property_key->0@).len() > 0,
        ensures
            text::views(result@) == self@.facet_snapshot(
                match property_key {
                    Some(key) => Some(key@),
                    None => None,
                },
            ),
    {
        let key = match property_key {
            Some(key) => Some(copy_str(key)),
            None => None,
        };
        let options = match FacetOptions::new(MAX_FACET_BUCKET_LIMIT, key) {
            Ok(options) => options,
            Err(_) => {
                return Vec::new();
            },
        };
        let mut events: Vec<&LogEvent> = Vec::new();
        let mut i: usize = 0;
        let ghost all = self@.buffer.events;
        assert(text::views(events@) =~= all.take(0));
        while i < self.buffer.events.len()
            invariant
                i <= self.buffer.events@.len(),
                all == text::views(self.buffer.events@),
                text::views(events@) == all.take(i as int),
            decreases self.buffer.events@.len() - i,
        {
            events.push(&self.buffer.events[i]);
            assert(all.take(i + 1) =~= all.take(i as int).push(all[i as int]));
            i += 1;
        }
        assert(all.take(i as int) =~= all);
        aggregate_facets(
            events.as_slice(),
            MAX_FACET_RECORD_LIMIT,
            self.filter_workflow.filters(),
            &options,
        )
    }

    fn activate_selected_facet_row(&mut self)
        requires
            old(self).wf(),
        ensures
            final(self)@ == old(self)@.facet_activated(),
            final(self).wf(),
    {
        let row = match self.selected_facet_dialog_row() {
            Some(row) => row,
            None => {
                return ;
            },
        };
        let drilldown_key = match &self.facet_view {
            FacetDialogView::Root => None,
            FacetDialogView::PropertyValues { property_key } => Some(property_key.clone()),
        };
        match drilldown_key {
            Some(key) => {
                let changed = self.filter_workflow.replace_property_value_from_facet(
                    key.as_str(),
                    row.value.as_str(),
                );
                self.finish_facet_filter_application(changed);
            },
            None => match row.facet {
                FacetKind::Source => {
                    let changed = self.filter_workflow.replace_source_from_facet(
                        row.value.as_str(),
                    );
                    self.finish_facet_filter_application(changed);
                },
                FacetKind::Level => {
                    let changed = match Level::parse(row.value.as_str()) {
                        Some(level) => self.filter_workflow.replace_level_from_facet(level),
                        None => false,
                    };
                    self.finish_facet_filter_application(changed);
                },
                FacetKind::PropertyKey => {
                    self.refresh_facet_drilldown(row.value);
                },
                FacetKind::PropertyValue => {},
            },
        }
    }

    fn finish_facet_filter_application(&mut self, changed: bool)
        requires
            old(self).sound(),
            !changed ==> old(self).wf(),
        ensures
            final(self)@ == if changed {
                old(self)@.filters_synced().selection_synced().closed()
            } else {
                old(self)@.closed()
            },
            final(self).wf(),
    {
        if changed {
            self.sync_visible_cache();
            self.sync_selection();
        }
        self.close_dialog();
    }

    fn refresh_facet_drilldown(&mut self, property_key: String)
        requires
            old(self).wf(),
            old(self)@.facet_place is Root,
        ensures
            final(self)@ == old(self)@.drilled_down(property_key@),
            final(self).wf(),
    {
        if trimmed(property_key.as_str()).as_str().is_empty() {
            return ;
        }
        let previous_selected = self.facet_root_list.selected();
        let selected_row = self.selected_facet_dialog_row();
        let groups = self.aggregate_facet_snapshot(Some(property_key.as_str()));
        let root_rows = facet_root_rows(&groups);
        let root_summary = facet_root_summary(&groups);
        let (value_rows, value_summary) = match facet_group(&groups, FacetKind::PropertyValue) {
            Some(group) => (
                facet_group_rows(group),
                facet_value_summary(group, property_key.as_str()),
            ),
            None => (Vec::new(), String::new()),
        };
        assert(text::views(value_rows@) =~= facets::kind_rows(
            text::views(groups@),
            FacetKind::PropertyValue,
        ));
        let query = trimmed(self.facet_root_list.query());
        let filtered_root_rows = matching_rows(&root_rows, query.as_str());
        assert(filtered_root_rows@.len() == text::views(filtered_root_rows@).len());
        let root_len = filtered_root_rows.len();
        let nearest: usize = if root_len == 0 {
            0
        } else if previous_selected > root_len - 1 {
            root_len - 1
        } else {
            previous_selected
        };
        let restored_selected: usize = match &selected_row {
            Some(row) => {
                let at = find_row(&filtered_root_rows, row.facet, row.value.as_str());
                if at < root_len {
                    at
                } else {
                    nearest
                }
            },
            None => nearest,
        };
        self.facet_root_rows = root_rows;
        self.facet_root_summary = root_summary;
        self.facet_value_rows = value_rows;
        self.facet_value_summary = value_summary;
        self.facet_root_list.move_up(usize::MAX);
        self.facet_root_list.move_down(restored_selected, root_len);
        self.facet_value_list = SearchableListState::default();
        self.facet_view = FacetDialogView::PropertyValues { property_key };
        self.sync_dialog_selection(DialogKind::Facets);
    }

    fn return_to_facet_root(&mut self)
        requires
            old(self).wf(),
        ensures
            final(self)@ == old(self)@.back_to_root(),
            final(self).wf(),
    {
        if !self.facet_dialog_is_drilldown() {
            return ;
        }
        self.facet_view = FacetDialogView::Root;
        self.sync_dialog_selection(DialogKind::Facets);
    }
}

} // verus!
