//! What the state of the viewer is, and what each operation makes of it.
use crate::app::facets::{self, FacetRowView};
use crate::app::list_state::{clamped, ListView};
use crate::app::sources::{self, SourceRowView};
use crate::app::visible::{self, VisibleView};
use crate::app::{DialogKind, Mode, PromptKind};
use crate::buffer::{self, BufferView};
use crate::commands;
use crate::facet::{self, FacetKind, GroupView, MAX_FACET_BUCKET_LIMIT, MAX_FACET_RECORD_LIMIT};
use crate::filter::workflow::{self, FilterEdit, PresetRowView, PropertyRowView, WorkflowView};
use crate::filter::{self, FilterView, PropertyFilterId};
use crate::model::{self, EventView, PropertyView};
use crate::text;
use vstd::prelude::*;

verus! {

/// Which facets are listed: those of all events, or the values of a property.
pub enum FacetPlace {
    Root,
    Values(Seq<char>),
}

/// What the state of the viewer is.
pub struct AppView {
    pub buffer: BufferView,
    pub workflow: WorkflowView,
    pub visible: VisibleView,
    pub anchor: Option<int>,
    pub marked: Seq<u64>,
    pub mode: Mode,
    pub notice: Option<Seq<char>>,
    pub prompt: Seq<char>,
    pub palette: ListView,
    pub pending_g: bool,
    pub details_open: bool,
    pub selected_property: int,
    pub property_filters: ListView,
    pub editing: Option<PropertyFilterId>,
    pub field_rows: Seq<Seq<char>>,
    pub field_keys: Seq<Seq<char>>,
    pub message_fields: ListView,
    pub preset_list: ListView,
    pub sources: ListView,
    pub facet_root_list: ListView,
    pub facet_value_list: ListView,
    pub facet_place: FacetPlace,
    pub facet_root_rows: Seq<FacetRowView>,
    pub facet_value_rows: Seq<FacetRowView>,
    pub facet_root_summary: Seq<char>,
    pub facet_value_summary: Seq<char>,
}

/// Text that was taken to be copied.
pub struct YankView {
    pub text: Seq<char>,
    pub count: int,
}

/// What a prompt edits.
pub open spec fn edit_of(kind: PromptKind) -> FilterEdit {
    match kind {
        PromptKind::Text => FilterEdit::Text,
        PromptKind::Source => FilterEdit::Source,
        PromptKind::Level => FilterEdit::Level,
        PromptKind::IncludeProperty => FilterEdit::IncludeProperty,
        PromptKind::ExcludeProperty => FilterEdit::ExcludeProperty,
        PromptKind::EditPropertyFilter => FilterEdit::EditPropertyFilter,
    }
}

/// The keys that a query finds.
pub open spec fn keys_matching(keys: Seq<Seq<char>>, query: Seq<char>) -> Seq<Seq<char>>
    decreases keys.len(),
{
    if keys.len() == 0 {
        keys
    } else if query.len() == 0 || text::contains_ignore_case(keys.last(), query) {
        keys_matching(keys.drop_last(), query).push(keys.last())
    } else {
        keys_matching(keys.drop_last(), query)
    }
}

/// The item of a list at an index.
pub open spec fn item_at<T>(items: Seq<T>, index: int) -> Option<T> {
    if 0 <= index < items.len() {
        Some(items[index])
    } else {
        None
    }
}

/// The index of the first occurrence of a text, or the number of texts.
pub open spec fn key_index(keys: Seq<Seq<char>>, key: Seq<char>) -> int
    decreases keys.len(),
{
    if keys.len() == 0 || keys[0] == key {
        0
    } else {
        1 + key_index(keys.drop_first(), key)
    }
}

/// The keys of a list that are among others, in the order of the list.
pub open spec fn keys_among(keys: Seq<Seq<char>>, others: Seq<Seq<char>>) -> Seq<Seq<char>>
    decreases keys.len(),
{
    if keys.len() == 0 {
        keys
    } else if others.contains(keys.last()) {
        keys_among(keys.drop_last(), others).push(keys.last())
    } else {
        keys_among(keys.drop_last(), others)
    }
}

/// A list without the first occurrence of a key.
pub open spec fn key_removed(keys: Seq<Seq<char>>, key: Seq<char>) -> Seq<Seq<char>> {
    let i = key_index(keys, key);
    if i < keys.len() {
        keys.remove(i)
    } else {
        keys
    }
}

/// The raw lines of some events.
pub open spec fn raw_lines(events: Seq<(int, EventView)>) -> Seq<Seq<char>> {
    Seq::new(events.len(), |i: int| events[i].1.raw)
}

/// Lines, each with its end.
pub open spec fn ended_lines(lines: Seq<Seq<char>>) -> Seq<char>
    decreases lines.len(),
{
    if lines.len() == 0 {
        Seq::empty()
    } else {
        ended_lines(lines.drop_last()) + lines.last().push('\n')
    }
}

/// The viewer before the first line.
pub open spec fn start(capacity: int, fields: Seq<Seq<char>>) -> AppView {
    AppView {
        buffer: buffer::empty(capacity, fields),
        workflow: WorkflowView::start(),
        visible: VisibleView::start(),
        anchor: None,
        marked: Seq::empty(),
        mode: Mode::Normal,
        notice: None,
        prompt: Seq::empty(),
        palette: ListView::start(),
        pending_g: false,
        details_open: false,
        selected_property: 0,
        property_filters: ListView::start(),
        editing: None,
        field_rows: Seq::empty(),
        field_keys: Seq::empty(),
        message_fields: ListView::start(),
        preset_list: ListView::start(),
        sources: ListView::start(),
        facet_root_list: ListView::start(),
        facet_value_list: ListView::start(),
        facet_place: FacetPlace::Root,
        facet_root_rows: Seq::empty(),
        facet_value_rows: Seq::empty(),
        facet_root_summary: Seq::empty(),
        facet_value_summary: Seq::empty(),
    }
}

impl AppView {
    // -----------------------------------------------------------------------
    // What is shown and selected
    // -----------------------------------------------------------------------

    /// The present filter.
    pub open spec fn filters(self) -> FilterView {
        self.workflow.filters
    }

    /// How many events are shown.
    pub open spec fn count(self) -> int {
        self.visible.count(self.buffer.events, self.workflow.filters)
    }

    /// The shown event at an index.
    pub open spec fn event_at(self, index: int) -> Option<EventView> {
        self.visible.at(self.buffer.events, self.workflow.filters, index)
    }

    /// The selected event.
    pub open spec fn event(self) -> Option<EventView> {
        self.event_at(self.visible.selected)
    }

    /// The properties of the selected event.
    pub open spec fn properties(self) -> Seq<PropertyView> {
        match self.event() {
            Some(event) => event.properties,
            None => Seq::empty(),
        }
    }

    /// The selected property.
    pub open spec fn property(self) -> Option<PropertyView> {
        item_at(self.properties(), self.selected_property)
    }

    /// The first and the last index of the selected events in visual mode.
    pub open spec fn visual_range(self) -> Option<(int, int)> {
        if self.mode != Mode::Visual || self.count() == 0 {
            None
        } else {
            match self.anchor {
                None => None,
                Some(anchor) => {
                    let selected = visible::min(self.visible.selected, self.count() - 1);
                    if anchor <= selected {
                        Some((anchor, selected))
                    } else {
                        Some((selected, anchor))
                    }
                },
            }
        }
    }

    /// The raw lines of a range of shown events.
    pub open spec fn yanked(self, start: int, end: int) -> Option<YankView> {
        let lines = raw_lines(
            self.visible.window(self.buffer.events, self.workflow.filters, start, end + 1),
        );
        if lines.len() == 0 {
            None
        } else {
            Some(
                YankView { text: text::split::join(lines, "\n"@), count: lines.len() as int },
            )
        }
    }

    /// The raw lines of the selected events in visual mode.
    pub open spec fn visual_yank(self) -> Option<YankView> {
        match self.visual_range() {
            Some((start, end)) => self.yanked(start, end),
            None => None,
        }
    }

    /// The raw lines of all shown events, each with its end.
    pub open spec fn exported(self) -> YankView {
        let lines = raw_lines(
            self.visible.window(self.buffer.events, self.workflow.filters, 0, self.count()),
        );
        YankView { text: ended_lines(lines), count: lines.len() as int }
    }

    // -----------------------------------------------------------------------
    // Keeping parts in step
    // -----------------------------------------------------------------------

    /// The selected property within the properties of the selected event.
    pub open spec fn property_synced(self) -> AppView {
        AppView {
            selected_property: clamped(self.selected_property, self.properties().len() as int),
            ..self
        }
    }

    /// The anchor within the shown events; none outside visual mode.
    pub open spec fn anchor_synced(self) -> AppView {
        AppView {
            anchor: if self.mode != Mode::Visual || self.count() == 0 {
                None
            } else {
                match self.anchor {
                    Some(anchor) => Some(visible::min(anchor, self.count() - 1)),
                    None => Some(visible::min(self.visible.selected, self.count() - 1)),
                }
            },
            ..self
        }
    }

    /// The selection within the shown events, and what hangs on it.
    pub open spec fn selection_synced(self) -> AppView {
        (AppView { visible: self.visible.reselected(self.count()), ..self }).property_synced()
            .anchor_synced()
    }

    /// The shown events those of the present filter.
    pub open spec fn filters_synced(self) -> AppView {
        let told = VisibleView {
            cache: visible::cache_for(self.buffer.events, self.workflow.filters),
            ..self.visible
        };
        AppView {
            visible: told.reselected(told.count(self.buffer.events, self.workflow.filters)),
            ..self
        }
    }

    /// The state after the filter changed.
    pub open spec fn refiltered(self, workflow: WorkflowView) -> AppView {
        (AppView { workflow, ..self }).filters_synced().selection_synced()
    }

    // -----------------------------------------------------------------------
    // Dialogs
    // -----------------------------------------------------------------------

    /// The list of a dialog.
    pub open spec fn list(self, kind: DialogKind) -> ListView {
        match kind {
            DialogKind::PropertyFilters => self.property_filters,
            DialogKind::MessageFields => self.message_fields,
            DialogKind::FilterPresets => self.preset_list,
            DialogKind::Sources => self.sources,
            DialogKind::Facets => match self.facet_place {
                FacetPlace::Root => self.facet_root_list,
                FacetPlace::Values(_) => self.facet_value_list,
            },
        }
    }

    /// The state with another list in a dialog.
    pub open spec fn with_list(self, kind: DialogKind, list: ListView) -> AppView {
        match kind {
            DialogKind::PropertyFilters => AppView { property_filters: list, ..self },
            DialogKind::MessageFields => AppView { message_fields: list, ..self },
            DialogKind::FilterPresets => AppView { preset_list: list, ..self },
            DialogKind::Sources => AppView { sources: list, ..self },
            DialogKind::Facets => match self.facet_place {
                FacetPlace::Root => AppView { facet_root_list: list, ..self },
                FacetPlace::Values(_) => AppView { facet_value_list: list, ..self },
            },
        }
    }

    /// The conditions that a query finds.
    pub open spec fn property_rows(self, query: Seq<char>) -> Seq<PropertyRowView> {
        workflow::property_rows_matching(workflow::property_rows(self.workflow.filters), query)
    }

    /// The presets that a query finds.
    pub open spec fn preset_rows(self, query: Seq<char>) -> Seq<PresetRowView> {
        workflow::preset_rows_matching(workflow::preset_rows(self.workflow.presets), query)
    }

    /// The sources that a query finds.
    pub open spec fn source_rows(self, query: Seq<char>) -> Seq<SourceRowView> {
        sources::source_rows_matching(sources::source_rows(self.buffer.events), query)
    }

    /// The facet values that are listed.
    pub open spec fn active_facet_rows(self) -> Seq<FacetRowView> {
        match self.facet_place {
            FacetPlace::Root => self.facet_root_rows,
            FacetPlace::Values(_) => self.facet_value_rows,
        }
    }

    /// The facet values that the search finds.
    pub open spec fn facet_rows(self) -> Seq<FacetRowView> {
        facets::rows_matching(
            self.active_facet_rows(),
            text::trim(self.list(DialogKind::Facets).query),
        )
    }

    /// What the listed facet values are counted from, in one line.
    pub open spec fn facet_summary(self) -> Seq<char> {
        match self.facet_place {
            FacetPlace::Root => self.facet_root_summary,
            FacetPlace::Values(_) => self.facet_value_summary,
        }
    }

    /// How many rows of a dialog a query finds.
    pub open spec fn rows_found(self, kind: DialogKind, query: Seq<char>) -> int {
        match kind {
            DialogKind::PropertyFilters => self.property_rows(query).len() as int,
            DialogKind::MessageFields => keys_matching(self.field_rows, query).len() as int,
            DialogKind::FilterPresets => self.preset_rows(query).len() as int,
            DialogKind::Sources => self.source_rows(query).len() as int,
            DialogKind::Facets => facets::rows_matching(
                self.active_facet_rows(),
                query,
            ).len() as int,
        }
    }

    /// How many rows a dialog shows.
    pub open spec fn dialog_len(self, kind: DialogKind) -> int {
        self.rows_found(kind, text::trim(self.list(kind).query))
    }

    /// The selection of a dialog within its rows.
    pub open spec fn dialog_synced(self, kind: DialogKind) -> AppView {
        self.with_list(kind, self.list(kind).synced(self.dialog_len(kind)))
    }

    /// A dialog with another query, and its selection within the rows found.
    pub open spec fn queried(self, kind: DialogKind, list: ListView) -> AppView {
        self.with_list(kind, list.synced(self.rows_found(kind, text::trim(list.query))))
    }

    /// The selected condition.
    pub open spec fn selected_property_row(self) -> Option<PropertyRowView> {
        item_at(
            self.property_rows(text::trim(self.property_filters.query)),
            self.property_filters.selected,
        )
    }

    /// The selected key of the fields that are listed.
    pub open spec fn selected_field(self) -> Option<Seq<char>> {
        item_at(
            keys_matching(self.field_rows, text::trim(self.message_fields.query)),
            self.message_fields.selected,
        )
    }

    /// The selected preset.
    pub open spec fn selected_preset_row(self) -> Option<PresetRowView> {
        item_at(
            self.preset_rows(text::trim(self.preset_list.query)),
            self.preset_list.selected,
        )
    }

    /// The selected facet value.
    pub open spec fn selected_facet_row(self) -> Option<FacetRowView> {
        item_at(
            facets::rows_matching(
                self.active_facet_rows(),
                text::trim(self.list(DialogKind::Facets).query),
            ),
            self.list(DialogKind::Facets).selected,
        )
    }

    /// The facets of the buffer under the present filter.
    pub open spec fn facet_snapshot(self, key: Option<Seq<char>>) -> Seq<GroupView> {
        facet::facets(
            self.buffer.events,
            MAX_FACET_RECORD_LIMIT as int,
            self.workflow.filters,
            MAX_FACET_BUCKET_LIMIT as int,
            key,
        )
    }

    // -----------------------------------------------------------------------
    // Operations
    // -----------------------------------------------------------------------

    /// A line has come.
    pub open spec fn received(self, line: Seq<char>) -> AppView {
        let (buffer, change) = self.buffer.with_line(0, None, line);
        let told = VisibleView {
            cache: visible::cache_after(
                self.visible.cache,
                change,
                buffer.events,
                self.workflow.filters,
            ),
            backlog: if self.visible.follow {
                self.visible.backlog
            } else {
                visible::min(self.visible.backlog + 1, usize::MAX as int)
            },
            ..self.visible
        };
        (AppView {
            buffer,
            marked: visible::all_removed(self.marked, change.removed),
            visible: told.reselected(told.count(buffer.events, self.workflow.filters)),
            ..self
        }).selection_synced()
    }

    /// Lines have come, one after the other.
    pub open spec fn received_all(self, lines: Seq<Seq<char>>) -> AppView
        decreases lines.len(),
    {
        if lines.len() == 0 {
            self
        } else {
            self.received_all(lines.drop_last()).received(lines.last())
        }
    }

    /// Following ends, or is taken up again.
    pub open spec fn follow_toggled(self) -> AppView {
        AppView {
            pending_g: false,
            visible: if self.visible.follow {
                VisibleView { follow: false, ..self.visible }
            } else {
                self.visible.at_bottom(self.count())
            },
            ..self
        }
    }

    /// The selection has moved.
    pub open spec fn moved(self, visible: VisibleView) -> AppView {
        (AppView { visible, pending_g: false, ..self }).property_synced()
    }

    /// The first event is selected.
    pub open spec fn at_top(self) -> AppView {
        self.moved(VisibleView { follow: false, selected: 0, ..self.visible })
    }

    /// The last event is selected and followed.
    pub open spec fn at_bottom(self) -> AppView {
        (AppView {
            visible: self.visible.at_bottom(self.count()),
            pending_g: false,
            ..self
        }).selection_synced()
    }

    /// A prompt is open.
    pub open spec fn prompting(self, kind: PromptKind) -> AppView {
        AppView {
            pending_g: false,
            prompt: workflow::prompt_text(self.workflow.filters, edit_of(kind), self.property()),
            editing: None,
            anchor: None,
            mode: Mode::Prompt(kind),
            ..self
        }
    }

    /// The selected condition is being edited.
    pub open spec fn editing_selected(self) -> AppView {
        match self.selected_property_row() {
            None => self,
            Some(row) => match self.workflow.filters.predicate_at(row.id) {
                None => self.dialog_synced(DialogKind::PropertyFilters),
                Some(predicate) => AppView {
                    prompt: predicate.summary(row.id.exclude),
                    editing: Some(row.id),
                    anchor: None,
                    mode: Mode::Prompt(PromptKind::EditPropertyFilter),
                    pending_g: false,
                    ..self
                },
            },
        }
    }

    /// The palette is open.
    pub open spec fn palette_opened(self) -> AppView {
        AppView {
            mode: Mode::Palette,
            prompt: Seq::empty(),
            pending_g: false,
            anchor: None,
            palette: self.palette.synced(commands::COMMAND_COUNT as int),
            ..self
        }
    }

    /// Nothing is open.
    pub open spec fn closed(self) -> AppView {
        AppView { mode: Mode::Normal, pending_g: false, ..self }
    }

    /// A dialog is open.
    pub open spec fn dialog_opened(self, kind: DialogKind) -> AppView {
        if kind == DialogKind::Facets {
            self.facets_opened()
        } else {
            (AppView {
                mode: Mode::Dialog(kind),
                prompt: Seq::empty(),
                pending_g: false,
                anchor: None,
                editing: if kind == DialogKind::PropertyFilters {
                    None
                } else {
                    self.editing
                },
                ..self
            }).dialog_synced(kind)
        }
    }

    /// The facet dialog is open, with the facets as they are now.
    pub open spec fn facets_opened(self) -> AppView {
        let groups = self.facet_snapshot(None);
        (AppView {
            facet_root_rows: facets::root_rows(groups),
            facet_root_summary: facets::root_summary(groups),
            facet_value_rows: Seq::empty(),
            facet_value_summary: Seq::empty(),
            facet_root_list: ListView::start(),
            facet_value_list: ListView::start(),
            facet_place: FacetPlace::Root,
            mode: Mode::Dialog(DialogKind::Facets),
            prompt: Seq::empty(),
            pending_g: false,
            anchor: None,
            ..self
        }).dialog_synced(DialogKind::Facets)
    }

    /// The selected property's key is among the pinned fields.
    pub open spec fn field_added(self) -> AppView {
        let idle = AppView { pending_g: false, ..self };
        match self.property() {
            None => idle,
            Some(property) => (AppView {
                field_rows: if self.field_rows.contains(property.key) {
                    self.field_rows
                } else {
                    self.field_rows.push(property.key)
                },
                field_keys: if self.field_rows.contains(property.key) {
                    self.with_field(property.key)
                } else {
                    self.field_keys.push(property.key)
                },
                ..idle
            }).dialog_synced(DialogKind::MessageFields),
        }
    }

    /// The prompt is closed without effect.
    pub open spec fn prompt_cancelled(self) -> AppView {
        AppView {
            mode: if self.editing is Some {
                Mode::Dialog(DialogKind::PropertyFilters)
            } else {
                Mode::Normal
            },
            prompt: Seq::empty(),
            pending_g: false,
            editing: None,
            ..self
        }
    }

    /// The prompt is closed, and what was typed is applied.
    pub open spec fn prompt_applied(self) -> AppView {
        match self.mode {
            Mode::Prompt(kind) => {
                let workflow = self.workflow.changed(
                    self.workflow.prompted(edit_of(kind), self.prompt, self.editing),
                );
                let filtered = (AppView { workflow, ..self }).filters_synced();
                (AppView {
                    mode: if kind == PromptKind::EditPropertyFilter {
                        Mode::Dialog(DialogKind::PropertyFilters)
                    } else {
                        Mode::Normal
                    },
                    prompt: Seq::empty(),
                    editing: None,
                    ..filtered
                }).dialog_synced(DialogKind::PropertyFilters).selection_synced()
            },
            _ => self,
        }
    }

    /// Several events can be selected, from the selected one on.
    pub open spec fn visual_started(self) -> AppView {
        if self.count() == 0 {
            AppView { anchor: None, pending_g: false, ..self }
        } else {
            let selected = visible::min(self.visible.selected, self.count() - 1);
            AppView {
                visible: VisibleView { follow: false, selected, ..self.visible },
                pending_g: false,
                anchor: Some(selected),
                mode: Mode::Visual,
                ..self
            }
        }
    }

    /// One event is selected again.
    pub open spec fn visual_ended(self) -> AppView {
        AppView { mode: Mode::Normal, anchor: None, pending_g: false, ..self }
    }

    /// The filter has no conditions.
    pub open spec fn filters_cleared(self) -> AppView {
        (AppView { pending_g: false, ..self }).refiltered(
            self.workflow.changed(filter::no_filter()),
        )
    }

    /// The filter before the last change is back.
    pub open spec fn filter_undone(self) -> AppView {
        let idle = AppView { pending_g: false, ..self };
        if self.workflow.history.len() == 0 {
            idle
        } else {
            idle.refiltered(self.workflow.undone())
        }
    }

    /// The filter is saved.
    pub open spec fn preset_saved(self) -> AppView {
        (AppView { pending_g: false, workflow: self.workflow.saved(), ..self }).dialog_synced(
            DialogKind::FilterPresets,
        )
    }

    /// The mark of the selected event is set or taken away.
    pub open spec fn marker_toggled(self) -> AppView {
        let idle = AppView { pending_g: false, ..self };
        match self.event() {
            None => idle,
            Some(event) => AppView {
                marked: if self.marked.contains(event.sequence) {
                    visible::number_removed(self.marked, event.sequence)
                } else {
                    visible::number_inserted(self.marked, event.sequence)
                },
                ..idle
            },
        }
    }

    /// The details of the selected event are open or closed.
    pub open spec fn details_toggled(self) -> AppView {
        (AppView {
            pending_g: false,
            details_open: !self.details_open && self.event() is Some,
            ..self
        }).property_synced()
    }

    /// The next property is selected.
    pub open spec fn property_advanced(self) -> AppView {
        let count = self.properties().len() as int;
        AppView {
            pending_g: false,
            selected_property: if self.event() is None {
                0
            } else if count == 0 {
                self.selected_property
            } else {
                visible::min(self.selected_property + 1, count - 1)
            },
            ..self
        }
    }

    /// The previous property is selected.
    pub open spec fn property_reversed(self) -> AppView {
        AppView {
            pending_g: false,
            selected_property: visible::above(self.selected_property, 1),
            ..self
        }
    }

    /// Only events that show what the selected property shows are shown.
    pub open spec fn property_followed(self) -> AppView {
        let idle = AppView { pending_g: false, ..self };
        match self.property() {
            None => idle,
            Some(property) => idle.refiltered(
                self.workflow.changed(self.workflow.following(property)),
            ),
        }
    }

    /// The key `g` once waits for another; twice it goes to the top.
    pub open spec fn g_pressed(self) -> AppView {
        if self.pending_g {
            self.at_top()
        } else {
            AppView { pending_g: true, ..self }
        }
    }

    /// The next or the previous match is selected.
    pub open spec fn searched(self, forward: bool) -> AppView {
        self.moved(
            if filter::is_set(self.workflow.filters.text) {
                self.visible.searched(self.count(), forward)
            } else {
                self.visible
            },
        )
    }

    /// The selected condition is gone.
    pub open spec fn property_filter_deleted(self) -> AppView {
        match self.selected_property_row() {
            None => self,
            Some(row) => {
                let workflow = self.workflow.changed(self.workflow.filters.removed(row.id));
                (AppView { workflow, ..self }).filters_synced().dialog_synced(
                    DialogKind::PropertyFilters,
                ).selection_synced()
            },
        }
    }

    /// The selected pinned field is gone.
    pub open spec fn field_deleted(self) -> AppView {
        match self.selected_field() {
            None => self,
            Some(key) => (AppView {
                field_rows: key_removed(self.field_rows, key),
                field_keys: key_removed(self.field_keys, key),
                ..self
            }).dialog_synced(DialogKind::MessageFields),
        }
    }

    /// The keys of the shown fields with one more, at its place in the list.
    pub open spec fn with_field(self, key: Seq<char>) -> Seq<Seq<char>> {
        keys_among(self.field_rows, self.field_keys.push(key))
    }

    /// The selected field is no longer shown, or is shown again. It stays in the
    /// list.
    pub open spec fn field_toggled(self) -> AppView {
        match self.selected_field() {
            None => self,
            Some(key) => AppView {
                field_keys: if self.field_keys.contains(key) {
                    key_removed(self.field_keys, key)
                } else {
                    self.with_field(key)
                },
                ..self
            },
        }
    }

    /// The selected preset is the filter.
    pub open spec fn preset_applied(self) -> AppView {
        match self.selected_preset_row() {
            None => self,
            Some(row) => if 0 <= row.index < self.workflow.presets.len() {
                self.refiltered(
                    self.workflow.changed(self.workflow.presets[row.index].filters),
                ).closed()
            } else {
                self.dialog_synced(DialogKind::FilterPresets)
            },
        }
    }

    /// The selected preset is gone.
    pub open spec fn preset_deleted(self) -> AppView {
        match self.selected_preset_row() {
            None => self,
            Some(row) => (AppView {
                workflow: if 0 <= row.index < self.workflow.presets.len() {
                    WorkflowView {
                        presets: self.workflow.presets.remove(row.index),
                        ..self.workflow
                    }
                } else {
                    self.workflow
                },
                ..self
            }).dialog_synced(DialogKind::FilterPresets),
        }
    }

    /// A facet value has been applied to the filter, and the dialog closed.
    pub open spec fn facet_applied(self, workflow: WorkflowView, changed: bool) -> AppView {
        if changed {
            self.refiltered(workflow).closed()
        } else {
            self.closed()
        }
    }

    /// The selected source, level or value is applied, or the values of the
    /// selected property are listed.
    pub open spec fn facet_activated(self) -> AppView {
        match self.selected_facet_row() {
            None => self,
            Some(row) => match self.facet_place {
                FacetPlace::Values(key) => self.facet_applied(
                    self.workflow.changed(self.workflow.narrowed(key, row.value)),
                    !self.workflow.shows_only(key, row.value),
                ),
                FacetPlace::Root => match row.facet {
                    FacetKind::Source => self.facet_applied(
                        self.workflow.changed(
                            FilterView { source: Some(row.value), ..self.workflow.filters },
                        ),
                        !(match self.workflow.filters.source {
                            Some(current) => text::eq_ignore_case(current, row.value),
                            None => false,
                        }),
                    ),
                    FacetKind::Level => match model::level_of(row.value) {
                        None => self.closed(),
                        Some(level) => self.facet_applied(
                            self.workflow.changed(
                                FilterView { level: Some(level), ..self.workflow.filters },
                            ),
                            self.workflow.filters.level != Some(level),
                        ),
                    },
                    FacetKind::PropertyKey => self.drilled_down(row.value),
                    FacetKind::PropertyValue => self,
                },
            },
        }
    }

    /// Where the selection of the root list goes when its rows are replaced:
    /// to the same facet and value, or as near as it can be.
    pub open spec fn restored(self, rows: Seq<FacetRowView>) -> int {
        let found = facets::rows_matching(rows, text::trim(self.facet_root_list.query));
        match self.selected_facet_row() {
            Some(row) => {
                let i = facets::row_index(found, row.facet, row.value);
                if i < found.len() {
                    i
                } else {
                    clamped(self.facet_root_list.selected, found.len() as int)
                }
            },
            None => clamped(self.facet_root_list.selected, found.len() as int),
        }
    }

    /// The values of a property are listed, with the facets as they are now.
    pub open spec fn drilled_down(self, key: Seq<char>) -> AppView {
        if text::trim(key).len() == 0 {
            self
        } else {
            let groups = self.facet_snapshot(Some(key));
            let rows = facets::root_rows(groups);
            let found = facets::rows_matching(rows, text::trim(self.facet_root_list.query));
            (AppView {
                facet_root_rows: rows,
                facet_root_summary: facets::root_summary(groups),
                facet_value_rows: facets::kind_rows(groups, FacetKind::PropertyValue),
                facet_value_summary: match facets::group_of_kind(
                    groups,
                    FacetKind::PropertyValue,
                ) {
                    Some(group) => facets::value_summary(group, key),
                    None => Seq::empty(),
                },
                facet_root_list: ListView {
                    selected: clamped(self.restored(rows), found.len() as int),
                    ..self.facet_root_list
                },
                facet_value_list: ListView::start(),
                facet_place: FacetPlace::Values(key),
                ..self
            }).dialog_synced(DialogKind::Facets)
        }
    }

    /// The facets of all events are listed again.
    pub open spec fn back_to_root(self) -> AppView {
        match self.facet_place {
            FacetPlace::Root => self,
            FacetPlace::Values(_) => (AppView {
                facet_place: FacetPlace::Root,
                ..self
            }).dialog_synced(DialogKind::Facets),
        }
    }

    /// The selected row of a dialog is activated.
    #[verifier::opaque]
    pub open spec fn row_activated(self, kind: DialogKind) -> AppView {
        match kind {
            DialogKind::PropertyFilters => self.editing_selected(),
            DialogKind::MessageFields => self.field_toggled(),
            DialogKind::FilterPresets => self.preset_applied(),
            DialogKind::Sources => self,
            DialogKind::Facets => self.facet_activated(),
        }
    }

    /// The selected row of a dialog is deleted.
    #[verifier::opaque]
    pub open spec fn row_deleted(self, kind: DialogKind) -> AppView {
        match kind {
            DialogKind::PropertyFilters => self.property_filter_deleted(),
            DialogKind::MessageFields => self.field_deleted(),
            DialogKind::FilterPresets => self.preset_deleted(),
            DialogKind::Sources => self,
            DialogKind::Facets => self.back_to_root(),
        }
    }

    // -----------------------------------------------------------------------
    // What always holds
    // -----------------------------------------------------------------------

    /// No field is listed twice, and the shown ones are of the list, in its order.
    pub open spec fn fields_listed(self) -> bool {
        &&& self.field_rows.no_duplicates()
        &&& self.field_keys == keys_among(self.field_rows, self.field_keys)
    }

    /// The buffer is valid; marks are in order and on events that are there; the
    /// shown fields are listed.
    pub open spec fn consistent(self) -> bool {
        &&& self.buffer.valid()
        &&& visible::increasing(self.marked)
        &&& forall|i: int|
            0 <= i < self.marked.len() ==> buffer::holds(
                self.buffer.events,
                #[trigger] self.marked[i],
            )
        &&& self.visible.selected >= 0
        &&& self.selected_property >= 0
        &&& self.anchor is Some ==> self.anchor->0 >= 0
        &&& self.fields_listed()
    }

    /// In visual mode the anchor is a shown event.
    pub open spec fn anchored(self) -> bool {
        self.mode == Mode::Visual && self.anchor is Some ==> self.anchor->0 < self.count()
    }

    /// The selection is a shown event, and the last one while following. Where
    /// nothing is shown it is at the beginning.
    pub open spec fn selects(self) -> bool {
        if self.count() == 0 {
            self.visible.selected == 0
        } else {
            &&& 0 <= self.visible.selected < self.count()
            &&& self.visible.follow ==> self.visible.selected == self.count() - 1
        }
    }

    /// The buffer is valid; the shown events are those of the filter; marks are
    /// in order and on events that are there; the selection and the anchor are
    /// shown events.
    pub open spec fn valid(self) -> bool {
        &&& self.consistent()
        &&& self.visible.synced(self.buffer.events, self.workflow.filters)
        &&& self.selects()
        &&& self.anchored()
    }
}

} // verus!
