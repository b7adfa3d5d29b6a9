//! The state of the viewer.
pub mod dialogs;
pub mod edit;
pub mod facets;
pub mod fields;
pub mod laws;
pub mod list_state;
pub mod sources;
pub mod state;
pub mod view_laws;
pub mod visible;

use crate::app::facets::{matching_rows, FacetDialogRow};
use crate::app::list_state::SearchableListState;
use crate::app::sources::{source_status_rows_for_query, SourceStatusRow};
use crate::app::state::{AppView, FacetPlace, YankView};
use crate::app::visible::VisibleLogView;
use crate::buffer::{self, LogBuffer};
use crate::commands::{self, action_at, all_commands, command_for_action, Command};
use crate::filter::workflow::{FilterEdit, FilterPresetRow, FilterWorkflow, PropertyFilterRow};
use crate::filter::{contains_ignore_ascii_case, LogFilter, PropertyFilterId};
use crate::model::{self, LogEvent, LogProperty, SourceConfig};
use crate::text::{self, chars_of, chars_trim, string_of};
use std::collections::VecDeque;
use vstd::prelude::*;

verus! {

broadcast use text::lemma_views_push;

/// What is typed into a prompt.
#[derive(Debug, Clone, Copy, PartialEq, Eq, Structural)]
pub enum PromptKind {
    Text,
    Source,
    Level,
    IncludeProperty,
    ExcludeProperty,
    EditPropertyFilter,
}

/// What a dialog lists.
#[derive(Debug, Clone, Copy, PartialEq, Eq, Structural)]
pub enum DialogKind {
    PropertyFilters,
    MessageFields,
    FilterPresets,
    Sources,
    Facets,
}

/// What keys speak to.
#[derive(Debug, Clone, Copy, PartialEq, Eq, Structural)]
pub enum Mode {
    Normal,
    Visual,
    Prompt(PromptKind),
    Palette,
    Dialog(DialogKind),
}

/// Which facets are listed.
#[derive(Debug, PartialEq, Eq)]
pub enum FacetDialogView {
    Root,
    PropertyValues { property_key: String },
}

impl View for FacetDialogView {
    type V = FacetPlace;

    open spec fn view(&self) -> FacetPlace {
        match self {
            FacetDialogView::Root => FacetPlace::Root,
            FacetDialogView::PropertyValues { property_key } => FacetPlace::Values(property_key@),
        }
    }
}

/// Text that was taken to be copied.
#[derive(Debug, PartialEq, Eq)]
pub struct YankedLines {
    pub text: String,
    pub line_count: usize,
}

impl View for YankedLines {
    type V = YankView;

    open spec fn view(&self) -> YankView {
        YankView { text: self.text@, count: self.line_count as int }
    }
}

/// The viewer: the events, what is shown of them, and what is being done.
#[derive(Debug)]
pub struct App {
    buffer: LogBuffer,
    filter_workflow: FilterWorkflow,
    visible: VisibleLogView,
    visual_anchor: Option<usize>,
    marked_sequences: VecDeque<u64>,
    mode: Mode,
    notice: Option<String>,
    prompt: String,
    palette: SearchableListState,
    pending_g: bool,
    details_open: bool,
    selected_property: usize,
    property_filters: SearchableListState,
    editing_property_filter: Option<PropertyFilterId>,
    message_field_list: Vec<String>,
    message_field_keys: Vec<String>,
    message_fields: SearchableListState,
    filter_preset_list: SearchableListState,
    sources: SearchableListState,
    facet_root_list: SearchableListState,
    facet_value_list: SearchableListState,
    facet_view: FacetDialogView,
    facet_root_rows: Vec<FacetDialogRow>,
    facet_value_rows: Vec<FacetDialogRow>,
    facet_root_summary: String,
    facet_value_summary: String,
}

impl View for App {
    type V = AppView;

    closed spec fn view(&self) -> AppView {
        AppView {
            buffer: self.buffer@,
            workflow: self.filter_workflow@,
            visible: self.visible@,
            anchor: match self.visual_anchor {
                Some(anchor) => Some(anchor as int),
                None => None,
            },
            marked: self.marked_sequences@,
            mode: self.mode,
            notice: text::opt_view(self.notice),
            prompt: self.prompt@,
            palette: self.palette@,
            pending_g: self.pending_g,
            details_open: self.details_open,
            selected_property: self.selected_property as int,
            property_filters: self.property_filters@,
            editing: self.editing_property_filter,
            field_rows: text::views(self.message_field_list@),
            field_keys: text::views(self.message_field_keys@),
            message_fields: self.message_fields@,
            preset_list: self.filter_preset_list@,
            sources: self.sources@,
            facet_root_list: self.facet_root_list@,
            facet_value_list: self.facet_value_list@,
            facet_place: self.facet_view@,
            facet_root_rows: text::views(self.facet_root_rows@),
            facet_value_rows: text::views(self.facet_value_rows@),
            facet_root_summary: self.facet_root_summary@,
            facet_value_summary: self.facet_value_summary@,
        }
    }
}

/// What holds between operations holds while the filter is being changed.
pub proof fn law_wf_is_sound(app: &App)
    requires
        app.wf(),
    ensures
        app.sound(),
{
}

/// What a prompt edits.
fn filter_edit(kind: PromptKind) -> (result: FilterEdit)
    ensures
        result == state::edit_of(kind),
{
    match kind {
        PromptKind::Text => FilterEdit::Text,
        PromptKind::Source => FilterEdit::Source,
        PromptKind::Level => FilterEdit::Level,
        PromptKind::IncludeProperty => FilterEdit::IncludeProperty,
        PromptKind::ExcludeProperty => FilterEdit::ExcludeProperty,
        PromptKind::EditPropertyFilter => FilterEdit::EditPropertyFilter,
    }
}

/// A text without the space around it.
fn trimmed(value: &str) -> (result: String)
    ensures
        result@ == text::trim(value@),
{
    let chars = chars_of(value);
    string_of(chars_trim(chars.as_slice()))
}

/// The keys that a query finds.
fn matching_keys<'a>(keys: &'a Vec<String>, query: &str) -> (result: Vec<&'a str>)
    ensures
        text::views(result@) == state::keys_matching(text::views(keys@), query@),
{
    let ghost all = text::views(keys@);
    let mut result: Vec<&'a str> = Vec::new();
    let mut i: usize = 0;
    assert(text::views(result@) =~= all.take(0));
    while i < keys.len()
        invariant
            i <= keys@.len(),
            all == text::views(keys@),
            text::views(result@) == state::keys_matching(all.take(i as int), query@),
        decreases keys@.len() - i,
    {
        assert(all.take(i + 1).drop_last() =~= all.take(i as int));
        let key = keys[i].as_str();
        if query.is_empty() || contains_ignore_ascii_case(key, query) {
            result.push(key);
        }
        i += 1;
    }
    assert(all.take(i as int) =~= all);
    result
}

impl App {
    /// What holds between operations.
    pub closed spec fn wf(&self) -> bool {
        self@.valid() && self.buffer.counted()
    }

    /// What holds while the filter is being changed.
    pub closed spec fn sound(&self) -> bool {
        self@.consistent() && self.buffer.counted()
    }

    /// A viewer that keeps some number of events.
    pub fn new(buffer_lines: usize) -> (result: Self)
        ensures
            result.wf(),
            result@ == state::start(
                buffer_lines as int,
                model::source_config(Seq::empty()).fields,
            ),
    {
        App::with_source_config(buffer_lines, SourceConfig::default())
    }

    /// A viewer that keeps some number of events, with configured sources.
    pub fn with_source_config(buffer_lines: usize, source_config: SourceConfig) -> (result: Self)
        ensures
            result.wf(),
            result@ == state::start(buffer_lines as int, source_config@.fields),
    {
        let result = App {
            buffer: LogBuffer::with_source_config(buffer_lines, source_config),
            filter_workflow: FilterWorkflow::default(),
            visible: VisibleLogView::new(),
            visual_anchor: None,
            marked_sequences: VecDeque::new(),
            mode: Mode::Normal,
            notice: None,
            prompt: String::new(),
            palette: SearchableListState::default(),
            pending_g: false,
            details_open: false,
            selected_property: 0,
            property_filters: SearchableListState::default(),
            editing_property_filter: None,
            message_field_list: Vec::new(),
            message_field_keys: Vec::new(),
            message_fields: SearchableListState::default(),
            filter_preset_list: SearchableListState::default(),
            sources: SearchableListState::default(),
            facet_root_list: SearchableListState::default(),
            facet_value_list: SearchableListState::default(),
            facet_view: FacetDialogView::Root,
            facet_root_rows: Vec::new(),
            facet_value_rows: Vec::new(),
            facet_root_summary: String::new(),
            facet_value_summary: String::new(),
        };
        proof {
            assert(result@.field_rows =~= Seq::<Seq<char>>::empty());
            assert(result@.field_keys =~= Seq::<Seq<char>>::empty());
            assert(result@.facet_root_rows =~= Seq::<facets::FacetRowView>::empty());
            assert(result@.facet_value_rows =~= Seq::<facets::FacetRowView>::empty());
            visible::lemma_empty_cache(result@.buffer.events, result@.workflow.filters);
        }
        result
    }

    /// How many events are kept.
    pub fn retained_len(&self) -> (result: usize)
        ensures
            result == self@.buffer.events.len(),
    {
        self.buffer.len()
    }

    /// How many events were ever numbered.
    pub fn next_sequence(&self) -> (result: u64)
        ensures
            result == self@.buffer.next,
    {
        self.buffer.next_sequence
    }

    /// Whether the last event stays selected.
    pub fn is_following(&self) -> (result: bool)
        ensures
            result == self@.visible.follow,
    {
        self.visible.is_following()
    }

    /// How many lines came since following ended.
    pub fn paused_backlog(&self) -> (result: usize)
        ensures
            result == self@.visible.backlog,
    {
        self.visible.paused_backlog()
    }

    /// How many events are marked.
    pub fn marker_count(&self) -> (result: usize)
        ensures
            result == self@.marked.len(),
    {
        self.marked_sequences.len()
    }

    /// Whether an event is marked.
    pub fn is_marked(&self, sequence: u64) -> (result: bool)
        ensures
            result == self@.marked.contains(sequence),
    {
        let mut i: usize = 0;
        while i < self.marked_sequences.len()
            invariant
                i <= self.marked_sequences@.len(),
                forall|j: int| 0 <= j < i ==> self.marked_sequences@[j] != sequence,
            decreases self.marked_sequences@.len() - i,
        {
            if self.marked_sequences[i] == sequence {
                assert(self@.marked[i as int] == sequence);
                return true;
            }
            i += 1;
        }
        false
    }

    /// The index of the selected event.
    pub fn selected(&self) -> (result: usize)
        ensures
            result == self@.visible.selected,
    {
        self.visible.selected()
    }

    /// The index of the first event on the screen.
    pub fn log_viewport_start(&self) -> (result: usize)
        ensures
            result == self@.visible.viewport_start,
    {
        self.visible.viewport_start()
    }

    /// What keys speak to.
    pub fn mode(&self) -> (result: &Mode)
        ensures
            *result == self@.mode,
    {
        &self.mode
    }

    /// What is told at the bottom of the screen.
    pub fn notice(&self) -> (result: Option<&str>)
        ensures
            match result {
                Some(notice) => self@.notice == Some(notice@),
                None => self@.notice is None,
            },
    {
        match &self.notice {
            Some(notice) => Some(notice.as_str()),
            None => None,
        }
    }

    /// What is typed into the prompt.
    pub fn prompt(&self) -> (result: &str)
        ensures
            result@ == self@.prompt,
    {
        self.prompt.as_str()
    }

    /// The index of the selected command.
    pub fn palette_selected(&self) -> (result: usize)
        ensures
            result == self@.palette.selected,
    {
        self.palette.selected()
    }

    /// The commands of the palette.
    pub fn palette_commands(&self) -> (result: Vec<Command>)
        ensures
            text::views(result@) == commands::commands(),
    {
        all_commands()
    }

    /// The selected command.
    pub fn selected_palette_command(&self) -> (result: Option<Command>)
        ensures
            text::opt_view(result) == state::item_at(commands::commands(), self@.palette.selected),
    {
        match action_at(self.palette.selected()) {
            Some(action) => command_for_action(action),
            None => None,
        }
    }

    /// What is typed into the search of a dialog.
    pub fn dialog_query(&self, kind: DialogKind) -> (result: &str)
        ensures
            result@ == self@.list(kind).query,
    {
        self.dialog_state(kind).query()
    }

    /// The index of the selected row of a dialog.
    pub fn selected_dialog_index(&self, kind: DialogKind) -> (result: usize)
        ensures
            result == self@.list(kind).selected,
    {
        self.dialog_state(kind).selected()
    }

    /// The conditions that the search finds.
    pub fn property_filter_rows(&self) -> (result: Vec<PropertyFilterRow>)
        ensures
            text::views(result@) == self@.property_rows(text::trim(self@.property_filters.query)),
    {
        let query = trimmed(self.property_filters.query());
        self.filter_workflow.property_filter_rows(query.as_str())
    }

    /// The selected condition.
    pub fn selected_property_filter_row(&self) -> (result: Option<PropertyFilterRow>)
        ensures
            text::opt_view(result) == self@.selected_property_row(),
    {
        let mut rows = self.property_filter_rows();
        let i = self.property_filters.selected();
        assert(rows@.len() == text::views(rows@).len());
        if i < rows.len() {
            Some(rows.remove(i))
        } else {
            None
        }
    }

    /// The keys of the fields that are shown with each message.
    pub fn message_field_keys(&self) -> (result: &[String])
        ensures
            text::views(result@) == self@.field_keys,
    {
        self.message_field_keys.as_slice()
    }

    /// The keys of listed fields that the search finds.
    pub fn message_field_rows(&self) -> (result: Vec<&str>)
        ensures
            text::views(result@) == state::keys_matching(
                self@.field_rows,
                text::trim(self@.message_fields.query),
            ),
    {
        let query = trimmed(self.message_fields.query());
        matching_keys(&self.message_field_list, query.as_str())
    }

    /// The selected key of a listed field.
    pub fn selected_message_field_key(&self) -> (result: Option<&str>)
        ensures
            match result {
                Some(key) => self@.selected_field() == Some(key@),
                None => self@.selected_field() is None,
            },
    {
        let rows = self.message_field_rows();
        let i = self.message_fields.selected();
        assert(rows@.len() == text::views(rows@).len());
        if i < rows.len() {
            Some(rows[i])
        } else {
            None
        }
    }

    /// The presets that the search finds.
    pub fn filter_preset_rows(&self) -> (result: Vec<FilterPresetRow>)
        ensures
            text::views(result@) == self@.preset_rows(text::trim(self@.preset_list.query)),
    {
        let query = trimmed(self.filter_preset_list.query());
        self.filter_workflow.filter_preset_rows(query.as_str())
    }

    /// The selected preset.
    pub fn selected_filter_preset_row(&self) -> (result: Option<FilterPresetRow>)
        ensures
            text::opt_view(result) == self@.selected_preset_row(),
    {
        let mut rows = self.filter_preset_rows();
        let i = self.filter_preset_list.selected();
        assert(rows@.len() == text::views(rows@).len());
        if i < rows.len() {
            Some(rows.remove(i))
        } else {
            None
        }
    }

    /// The facet values that the search finds.
    pub fn facet_dialog_rows(&self) -> (result: Vec<&FacetDialogRow>)
        ensures
            text::views(result@) == self@.facet_rows(),
    {
        let query = trimmed(self.dialog_query(DialogKind::Facets));
        matching_rows(self.active_facet_rows(), query.as_str())
    }

    /// What the facets are counted from, in one line.
    pub fn facet_dialog_summary(&self) -> (result: &str)
        ensures
            result@ == self@.facet_summary(),
    {
        match &self.facet_view {
            FacetDialogView::Root => self.facet_root_summary.as_str(),
            FacetDialogView::PropertyValues { .. } => self.facet_value_summary.as_str(),
        }
    }

    /// Whether the values of a property are listed.
    pub fn facet_dialog_is_drilldown(&self) -> (result: bool)
        ensures
            result == (self@.facet_place is Values),
    {
        match &self.facet_view {
            FacetDialogView::Root => false,
            FacetDialogView::PropertyValues { .. } => true,
        }
    }

    /// The sources that the search finds.
    pub fn source_status_rows(&self) -> (result: Vec<SourceStatusRow>)
        ensures
            text::views(result@) == self@.source_rows(text::trim(self@.sources.query)),
    {
        let query = trimmed(self.sources.query());
        source_status_rows_for_query(self.buffer.events(), query.as_str())
    }

    /// The present filter.
    pub fn filters(&self) -> (result: &LogFilter)
        ensures
            result@ == self@.workflow.filters,
    {
        self.filter_workflow.filters()
    }

    /// How many changes of the filter can be undone.
    pub fn filter_history_len(&self) -> (result: usize)
        ensures
            result == self@.workflow.history.len(),
    {
        self.filter_workflow.history_len()
    }

    /// Whether the details of the selected event are open.
    pub fn details_open(&self) -> (result: bool)
        ensures
            result == self@.details_open,
    {
        self.details_open
    }

    /// The index of the selected property.
    pub fn selected_property_index(&self) -> (result: usize)
        ensures
            result == self@.selected_property,
    {
        self.selected_property
    }

    /// The selected event.
    pub fn selected_event(&self) -> (result: Option<&LogEvent>)
        requires
            self.sound(),
        ensures
            match result {
                Some(event) => self@.event() == Some(event@),
                None => self@.event() is None,
            },
    {
        self.visible.selected_event(&self.buffer, self.filter_workflow.filters())
    }

    /// The first and the last index of the selected events in visual mode.
    pub fn visual_selection_range(&self) -> (result: Option<(usize, usize)>)
        ensures
            match result {
                Some((start, end)) => self@.visual_range() == Some((start as int, end as int)),
                None => self@.visual_range() is None,
            },
    {
        let count = self.visible_count();
        if self.mode != Mode::Visual || count == 0 {
            return None;
        }
        match self.visual_anchor {
            None => None,
            Some(anchor) => {
                let selected: usize = if self.selected() < count - 1 {
                    self.selected()
                } else {
                    count - 1
                };
                if anchor <= selected {
                    Some((anchor, selected))
                } else {
                    Some((selected, anchor))
                }
            },
        }
    }

    /// How many events are selected in visual mode.
    pub fn visual_selected_count(&self) -> (result: usize)
        requires
            self.wf(),
        ensures
            result == match self@.visual_range() {
                Some((start, end)) => end - start + 1,
                None => 0,
            },
    {
        assert(self.visible.cache.len() <= usize::MAX && self.buffer.events.len() <= usize::MAX);
        match self.visual_selection_range() {
            Some((start, end)) => end - start + 1,
            None => 0,
        }
    }

    /// The selected property.
    pub fn selected_property(&self) -> (result: Option<&LogProperty>)
        requires
            self.sound(),
        ensures
            match result {
                Some(property) => self@.property() == Some(property@),
                None => self@.property() is None,
            },
    {
        match self.selected_event() {
            Some(event) => {
                assert(event@.properties.len() == event.properties@.len());
                if self.selected_property < event.properties.len() {
                    Some(&event.properties[self.selected_property])
                } else {
                    None
                }
            },
            None => None,
        }
    }

    /// How many events are shown.
    pub fn visible_count(&self) -> (result: usize)
        ensures
            result == self@.count(),
    {
        self.visible.visible_count(&self.buffer, self.filter_workflow.filters())
    }

    /// The shown event at an index.
    pub fn visible_event_at(&self, visible_index: usize) -> (result: Option<&LogEvent>)
        requires
            self.sound(),
        ensures
            match result {
                Some(event) => self@.event_at(visible_index as int) == Some(event@),
                None => self@.event_at(visible_index as int) is None,
            },
    {
        self.visible.event_at(&self.buffer, self.filter_workflow.filters(), visible_index)
    }

    /// The shown event at an index.
    pub fn event_at_visible(&self, visible_index: usize) -> (result: Option<&LogEvent>)
        requires
            self.sound(),
        ensures
            match result {
                Some(event) => self@.event_at(visible_index as int) == Some(event@),
                None => self@.event_at(visible_index as int) is None,
            },
    {
        self.visible_event_at(visible_index)
    }

    /// The shown events from an index on, with their indices.
    pub fn for_each_visible_event(&self, start: usize, limit: usize) -> (result: Vec<
        (usize, &LogEvent),
    >)
        requires
            self.sound(),
        ensures
            visible::indexed_views(result@) == self@.visible.window(
                self@.buffer.events,
                self@.workflow.filters,
                start as int,
                visible::min(start + limit, self@.count()),
            ),
    {
        self.visible.for_each_visible_event(
            &self.buffer,
            self.filter_workflow.filters(),
            start,
            limit,
        )
    }

    fn dialog_state(&self, kind: DialogKind) -> (result: &SearchableListState)
        ensures
            result@ == self@.list(kind),
    {
        match kind {
            DialogKind::PropertyFilters => &self.property_filters,
            DialogKind::MessageFields => &self.message_fields,
            DialogKind::FilterPresets => &self.filter_preset_list,
            DialogKind::Sources => &self.sources,
            DialogKind::Facets => match &self.facet_view {
                FacetDialogView::Root => &self.facet_root_list,
                FacetDialogView::PropertyValues { .. } => &self.facet_value_list,
            },
        }
    }

    fn active_facet_rows(&self) -> (result: &Vec<FacetDialogRow>)
        ensures
            text::views(result@) == self@.active_facet_rows(),
    {
        match &self.facet_view {
            FacetDialogView::Root => &self.facet_root_rows,
            FacetDialogView::PropertyValues { .. } => &self.facet_value_rows,
        }
    }

    fn selected_facet_dialog_row(&self) -> (result: Option<FacetDialogRow>)
        ensures
            text::opt_view(result) == self@.selected_facet_row(),
    {
        let rows = self.facet_dialog_rows();
        let i = self.selected_dialog_index(DialogKind::Facets);
        assert(rows@.len() == text::views(rows@).len());
        if i < rows.len() {
            Some(rows[i].clone())
        } else {
            None
        }
    }

    fn dialog_len_for_query(&self, kind: DialogKind, query: &str) -> (result: usize)
        ensures
            result == self@.rows_found(kind, query@),
    {
        match kind {
            DialogKind::PropertyFilters => self.filter_workflow.property_filter_row_count(query),
            DialogKind::MessageFields => {
                let rows = matching_keys(&self.message_field_list, query);
                assert(rows@.len() == text::views(rows@).len());
                rows.len()
            },
            DialogKind::FilterPresets => self.filter_workflow.filter_preset_row_count(query),
            DialogKind::Sources => {
                let rows = source_status_rows_for_query(self.buffer.events(), query);
                assert(rows@.len() == text::views(rows@).len());
                rows.len()
            },
            DialogKind::Facets => {
                let rows = matching_rows(self.active_facet_rows(), query);
                assert(rows@.len() == text::views(rows@).len());
                rows.len()
            },
        }
    }

    fn dialog_len(&self, kind: DialogKind) -> (result: usize)
        ensures
            result == self@.dialog_len(kind),
    {
        let query = trimmed(self.dialog_query(kind));
        self.dialog_len_for_query(kind, query.as_str())
    }
}

} // verus!
