//! Editing filters: prompts, history and presets.
use crate::filter::{
    self, contains_ignore_ascii_case, FilterView, LogFilter, PredicateView,
    PropertyFilterId, PropertyFilterUpdate, PropertyPredicate, UpdateView,
};
use crate::model::{self, EventView, Level, LogProperty, PropertyView};
use crate::text;
use crate::text::number::decimal_string;
use crate::text::split::join_strings;
use crate::text::{
    chars_eq_ignore_case, chars_of, chars_trim, concat, concat3, copy_str, same, string_of,
};
use vstd::prelude::*;

verus! {

broadcast use text::lemma_views_push;

/// What a prompt edits.
#[derive(Debug, Clone, Copy, PartialEq, Eq, Structural)]
pub enum FilterEdit {
    Text,
    Source,
    Level,
    IncludeProperty,
    ExcludeProperty,
    EditPropertyFilter,
}

/// A condition on a property as it is listed.
#[derive(Debug, PartialEq, Eq)]
pub struct PropertyFilterRow {
    pub id: PropertyFilterId,
    pub kind: &'static str,
    pub summary: String,
}

/// What a listed condition is.
pub struct PropertyRowView {
    pub id: PropertyFilterId,
    pub kind: Seq<char>,
    pub summary: Seq<char>,
}

impl View for PropertyFilterRow {
    type V = PropertyRowView;

    open spec fn view(&self) -> PropertyRowView {
        PropertyRowView { id: self.id, kind: self.kind@, summary: self.summary@ }
    }
}

/// A preset as it is listed.
#[derive(Debug, PartialEq, Eq)]
pub struct FilterPresetRow {
    pub index: usize,
    pub name: String,
    pub summary: String,
}

/// What a listed preset is.
pub struct PresetRowView {
    pub index: int,
    pub name: Seq<char>,
    pub summary: Seq<char>,
}

impl View for FilterPresetRow {
    type V = PresetRowView;

    open spec fn view(&self) -> PresetRowView {
        PresetRowView { index: self.index as int, name: self.name@, summary: self.summary@ }
    }
}

/// A saved filter.
#[derive(Debug, PartialEq, Eq)]
pub struct FilterPreset {
    pub name: String,
    pub filters: LogFilter,
}

/// What a saved filter is.
pub struct PresetView {
    pub name: Seq<char>,
    pub filters: FilterView,
}

impl View for FilterPreset {
    type V = PresetView;

    open spec fn view(&self) -> PresetView {
        PresetView { name: self.name@, filters: self.filters@ }
    }
}

/// The filter, the filters before it, and saved filters.
#[derive(Debug)]
pub struct FilterWorkflow {
    pub filters: LogFilter,
    pub history: Vec<LogFilter>,
    pub presets: Vec<FilterPreset>,
}

/// What a workflow is.
pub struct WorkflowView {
    pub filters: FilterView,
    pub history: Seq<FilterView>,
    pub presets: Seq<PresetView>,
}

impl View for FilterWorkflow {
    type V = WorkflowView;

    open spec fn view(&self) -> WorkflowView {
        WorkflowView {
            filters: self.filters@,
            history: text::views(self.history@),
            presets: text::views(self.presets@),
        }
    }
}

impl WorkflowView {
    /// The workflow before its first edit.
    pub open spec fn start() -> WorkflowView {
        WorkflowView {
            filters: filter::no_filter(),
            history: Seq::empty(),
            presets: Seq::empty(),
        }
    }

    /// Another filter, with the one before it remembered if it differs.
    pub open spec fn changed(self, filters: FilterView) -> WorkflowView {
        WorkflowView {
            filters,
            history: if filters == self.filters {
                self.history
            } else {
                self.history.push(self.filters)
            },
            ..self
        }
    }

    /// The filter before the last change.
    pub open spec fn undone(self) -> WorkflowView {
        if self.history.len() == 0 {
            self
        } else {
            WorkflowView {
                filters: self.history.last(),
                history: self.history.drop_last(),
                ..self
            }
        }
    }

    /// The filter that a typed value makes.
    pub open spec fn prompted(
        self,
        edit: FilterEdit,
        value: Seq<char>,
        editing: Option<PropertyFilterId>,
    ) -> FilterView {
        let typed = text::trim(value);
        let set = if typed.len() == 0 {
            None
        } else {
            Some(typed)
        };
        match edit {
            FilterEdit::Text => FilterView { text: set, ..self.filters },
            FilterEdit::Source => FilterView { source: set, ..self.filters },
            FilterEdit::Level => FilterView {
                level: if typed.len() == 0 {
                    None
                } else {
                    model::level_of(typed)
                },
                ..self.filters
            },
            FilterEdit::IncludeProperty => match filter::typed_update(typed, false) {
                Some(update) => self.filters.added(update),
                None => self.filters,
            },
            FilterEdit::ExcludeProperty => match filter::typed_update(typed, true) {
                Some(update) => self.filters.added(update),
                None => self.filters,
            },
            FilterEdit::EditPropertyFilter => match (filter::typed_update(typed, false), editing) {
                (Some(update), Some(id)) => if self.filters.predicate_at(id) is Some {
                    self.filters.removed(id).added(update)
                } else {
                    self.filters
                },
                _ => self.filters,
            },
        }
    }

    /// The filter that shows only what a property shows.
    pub open spec fn following(self, property: PropertyView) -> FilterView {
        self.filters.added(exact_include(property.key, property.value.display()))
    }

    /// The filter with one exact condition on a property and no other on it.
    pub open spec fn narrowed(self, key: Seq<char>, value: Seq<char>) -> FilterView {
        self.filters.keyless(key).added(exact_include(key, value))
    }

    /// Whether the one condition on a property is that it shows a value.
    pub open spec fn shows_only(self, key: Seq<char>, value: Seq<char>) -> bool {
        keyed(self.filters.excludes, key).len() == 0 && keyed(self.filters.includes, key) == seq![
            PredicateView { key, value: Some(value) },
        ]
    }

    /// The workflow with its filter saved, where it is active and not saved
    /// already.
    pub open spec fn saved(self) -> WorkflowView {
        if !self.filters.active() || exists|i: int|
            0 <= i < self.presets.len() && (#[trigger] self.presets[i]).filters == self.filters {
            self
        } else {
            WorkflowView {
                presets: self.presets.push(
                    PresetView {
                        name: "Preset "@ + text::number::decimal(self.presets.len() + 1),
                        filters: self.filters,
                    },
                ),
                ..self
            }
        }
    }
}

/// The condition that lets in what shows a value.
pub open spec fn exact_include(key: Seq<char>, value: Seq<char>) -> UpdateView {
    UpdateView { exclude: false, predicate: PredicateView { key, value: Some(value) } }
}

/// The conditions on a property.
pub open spec fn keyed(predicates: Seq<PredicateView>, key: Seq<char>) -> Seq<PredicateView>
    decreases predicates.len(),
{
    if predicates.len() == 0 {
        predicates
    } else if predicates.last().key == key {
        keyed(predicates.drop_last(), key).push(predicates.last())
    } else {
        keyed(predicates.drop_last(), key)
    }
}

/// The listed conditions of a filter: those that let events in, then those
/// that keep events out.
pub open spec fn property_rows(filters: FilterView) -> Seq<PropertyRowView> {
    Seq::new(
        filters.includes.len(),
        |i: int|
            PropertyRowView {
                id: PropertyFilterId { exclude: false, index: i as usize },
                kind: "show"@,
                summary: filters.includes[i].summary(false),
            },
    ) + Seq::new(
        filters.excludes.len(),
        |i: int|
            PropertyRowView {
                id: PropertyFilterId { exclude: true, index: i as usize },
                kind: "ignore"@,
                summary: filters.excludes[i].summary(true),
            },
    )
}

/// Whether a listed condition is found by a query.
pub open spec fn property_row_matches(row: PropertyRowView, query: Seq<char>) -> bool {
    query.len() == 0 || text::contains_ignore_case(row.kind, query) || text::contains_ignore_case(
        row.summary,
        query,
    )
}

/// The listed conditions that a query finds.
pub open spec fn property_rows_matching(rows: Seq<PropertyRowView>, query: Seq<char>) -> Seq<
    PropertyRowView,
>
    decreases rows.len(),
{
    if rows.len() == 0 {
        rows
    } else if property_row_matches(rows.last(), query) {
        property_rows_matching(rows.drop_last(), query).push(rows.last())
    } else {
        property_rows_matching(rows.drop_last(), query)
    }
}

/// A text after a label, where it is set.
pub open spec fn labeled(label: Seq<char>, value: Option<Seq<char>>) -> Seq<Seq<char>> {
    if filter::is_set(value) {
        seq![label + value->0]
    } else {
        Seq::empty()
    }
}

/// The parts of a filter's summary.
pub open spec fn summary_parts(filters: FilterView) -> Seq<Seq<char>> {
    labeled("search="@, filters.text) + labeled("source="@, filters.source) + (
    match filters.level {
        Some(level) => seq!["level="@ + model::level_name(level)],
        None => Seq::empty(),
    }) + Seq::new(filters.includes.len(), |i: int| "show "@ + filters.includes[i].summary(false))
        + Seq::new(filters.excludes.len(), |i: int| "hide "@ + filters.excludes[i].summary(true))
}

/// A filter in a few words.
pub open spec fn filter_summary(filters: FilterView) -> Seq<char> {
    if summary_parts(filters).len() == 0 {
        "-"@
    } else {
        text::split::join(summary_parts(filters), ", "@)
    }
}

/// The listed presets.
pub open spec fn preset_rows(presets: Seq<PresetView>) -> Seq<PresetRowView> {
    Seq::new(
        presets.len(),
        |i: int|
            PresetRowView {
                index: i,
                name: presets[i].name,
                summary: filter_summary(presets[i].filters),
            },
    )
}

/// Whether a listed preset is found by a query.
pub open spec fn preset_row_matches(row: PresetRowView, query: Seq<char>) -> bool {
    query.len() == 0 || text::contains_ignore_case(row.name, query) || text::contains_ignore_case(
        row.summary,
        query,
    )
}

/// The listed presets that a query finds.
pub open spec fn preset_rows_matching(rows: Seq<PresetRowView>, query: Seq<char>) -> Seq<
    PresetRowView,
>
    decreases rows.len(),
{
    if rows.len() == 0 {
        rows
    } else if preset_row_matches(rows.last(), query) {
        preset_rows_matching(rows.drop_last(), query).push(rows.last())
    } else {
        preset_rows_matching(rows.drop_last(), query)
    }
}

/// The text that a prompt begins with.
pub open spec fn prompt_text(
    filters: FilterView,
    edit: FilterEdit,
    property: Option<PropertyView>,
) -> Seq<char> {
    match edit {
        FilterEdit::Text => match filters.text {
            Some(value) => value,
            None => Seq::empty(),
        },
        FilterEdit::Source => match filters.source {
            Some(value) => value,
            None => Seq::empty(),
        },
        FilterEdit::Level => match filters.level {
            Some(level) => model::level_name(level),
            None => Seq::empty(),
        },
        FilterEdit::IncludeProperty | FilterEdit::ExcludeProperty => match property {
            Some(property) => property.key + "="@ + property.value.display(),
            None => Seq::empty(),
        },
        FilterEdit::EditPropertyFilter => Seq::empty(),
    }
}

fn collect_keyed(items: &Vec<PropertyPredicate>, key: &str) -> (result: Vec<PropertyPredicate>)
    ensures
        text::views(result@) == keyed(text::views(items@), key@),
{
    let ghost all = text::views(items@);
    let mut result: Vec<PropertyPredicate> = Vec::new();
    let mut i: usize = 0;
    assert(text::views(result@) =~= all.take(0));
    while i < items.len()
        invariant
            i <= items@.len(),
            all == text::views(items@),
            text::views(result@) == keyed(all.take(i as int), key@),
        decreases items@.len() - i,
    {
        assert(all.take(i + 1).drop_last() =~= all.take(i as int));
        if same(items[i].key.as_str(), key) {
            result.push(items[i].clone());
        }
        i += 1;
    }
    assert(all.take(i as int) =~= all);
    result
}

fn property_filter_row_matches(row: &PropertyFilterRow, query: &str) -> (result: bool)
    ensures
        result == property_row_matches(row@, query@),
{
    query.is_empty() || contains_ignore_ascii_case(row.kind, query) || contains_ignore_ascii_case(
        row.summary.as_str(),
        query,
    )
}

fn push_labeled(parts: &mut Vec<String>, label: &str, value: &Option<String>)
    ensures
        text::views(final(parts)@) == text::views(old(parts)@) + labeled(
            label@,
            text::opt_view(*value),
        ),
{
    let ghost before = text::views(parts@);
    match value {
        Some(value) => {
            if !value.as_str().is_empty() {
                parts.push(concat(label, value.as_str()));
            }
        },
        None => {},
    }
    assert(text::views(parts@) =~= before + labeled(label@, text::opt_view(*value)));
}

fn push_summaries(parts: &mut Vec<String>, label: &str, items: &Vec<PropertyPredicate>, exclude: bool)
    ensures
        text::views(final(parts)@) == text::views(old(parts)@) + Seq::new(
            items@.len(),
            |i: int| label@ + items@[i]@.summary(exclude),
        ),
{
    let ghost before = text::views(parts@);
    let ghost added = Seq::new(items@.len(), |i: int| label@ + items@[i]@.summary(exclude));
    let mut i: usize = 0;
    assert(before + added.take(0) =~= before);
    while i < items.len()
        invariant
            i <= items@.len(),
            added == Seq::new(items@.len(), |i: int| label@ + items@[i]@.summary(exclude)),
            text::views(parts@) == before + added.take(i as int),
        decreases items@.len() - i,
    {
        let summary = items[i].summary_for(exclude);
        parts.push(concat(label, summary.as_str()));
        assert(before + added.take(i + 1) =~= (before + added.take(i as int)).push(
            added[i as int],
        ));
        i += 1;
    }
    assert(added.take(i as int) =~= added);
}

/// A filter in a few words.
pub fn summarize_filter(filters: &LogFilter) -> (result: String)
    ensures
        result@ == filter_summary(filters@),
{
    let mut parts: Vec<String> = Vec::new();
    assert(text::views(parts@) =~= Seq::<Seq<char>>::empty());
    push_labeled(&mut parts, "search=", &filters.text);
    assert(text::views(parts@) =~= labeled("search="@, filters@.text));
    push_labeled(&mut parts, "source=", &filters.source);
    let ghost two = text::views(parts@);
    match filters.level {
        Some(level) => {
            parts.push(concat("level=", level.as_str()));
            assert(text::views(parts@) =~= two + seq!["level="@ + model::level_name(level)]);
        },
        None => {
            assert(two + Seq::<Seq<char>>::empty() =~= two);
        },
    }
    let ghost three = text::views(parts@);
    push_summaries(&mut parts, "show ", &filters.property_includes, false);
    assert(text::views(parts@) =~= three + Seq::new(
        filters@.includes.len(),
        |i: int| "show "@ + filters@.includes[i].summary(false),
    ));
    let ghost four = text::views(parts@);
    push_summaries(&mut parts, "hide ", &filters.property_excludes, true);
    assert(text::views(parts@) =~= four + Seq::new(
        filters@.excludes.len(),
        |i: int| "hide "@ + filters@.excludes[i].summary(true),
    ));
    assert(text::views(parts@) =~= summary_parts(filters@));
    if parts.len() == 0 {
        copy_str("-")
    } else {
        join_strings(&parts, ", ")
    }
}

impl Default for FilterWorkflow {
    fn default() -> (result: Self)
        ensures
            result@ == WorkflowView::start(),
    {
        let result = FilterWorkflow {
            filters: LogFilter::default(),
            history: Vec::new(),
            presets: Vec::new(),
        };
        assert(result@.history =~= Seq::<FilterView>::empty());
        assert(result@.presets =~= Seq::<PresetView>::empty());
        result
    }
}

impl FilterWorkflow {
    /// The present filter.
    pub fn filters(&self) -> (result: &LogFilter)
        ensures
            *result == self.filters,
            result@ == self@.filters,
    {
        &self.filters
    }

    /// The present filter, to be changed without a trace in the history.
    pub fn filters_mut(&mut self) -> (result: &mut LogFilter)
        ensures
            *result == old(self).filters,
            final(self).filters == *final(result),
            final(self).history == old(self).history,
            final(self).presets == old(self).presets,
    {
        &mut self.filters
    }

    /// How many changes can be undone.
    pub fn history_len(&self) -> (result: usize)
        ensures
            result == self@.history.len(),
    {
        self.history.len()
    }

    /// The text that a prompt begins with.
    pub fn prompt_value(&self, edit: FilterEdit, property: Option<&LogProperty>) -> (result: String)
        ensures
            result@ == prompt_text(
                self@.filters,
                edit,
                match property {
                    Some(property) => Some(property@),
                    None => None,
                },
            ),
    {
        match edit {
            FilterEdit::Text => match &self.filters.text {
                Some(value) => value.clone(),
                None => String::new(),
            },
            FilterEdit::Source => match &self.filters.source {
                Some(value) => value.clone(),
                None => String::new(),
            },
            FilterEdit::Level => match self.filters.level {
                Some(level) => copy_str(level.as_str()),
                None => String::new(),
            },
            FilterEdit::IncludeProperty | FilterEdit::ExcludeProperty => match property {
                Some(property) => concat3(
                    property.key.as_str(),
                    "=",
                    property.value.as_display_str(),
                ),
                None => String::new(),
            },
            FilterEdit::EditPropertyFilter => String::new(),
        }
    }

    fn remember_change(&mut self, previous_filters: LogFilter)
        ensures
            final(self)@ == (WorkflowView {
                filters: previous_filters@,
                ..old(self)@
            }).changed(old(self)@.filters),
    {
        if !previous_filters.same_as(&self.filters) {
            self.history.push(previous_filters);
        }
    }

    /// Applies a typed value.
    pub fn apply_prompt(
        &mut self,
        edit: FilterEdit,
        value: &str,
        editing_property_filter: Option<PropertyFilterId>,
    )
        ensures
            final(self)@ == old(self)@.changed(
                old(self)@.prompted(edit, value@, editing_property_filter),
            ),
    {
        let chars = chars_of(value);
        let value = string_of(chars_trim(chars.as_slice()));
        let previous_filters = self.filters.clone();
        match edit {
            FilterEdit::Text => {
                self.filters.text = if value.as_str().is_empty() {
                    None
                } else {
                    Some(value)
                };
            },
            FilterEdit::Source => {
                self.filters.source = if value.as_str().is_empty() {
                    None
                } else {
                    Some(value)
                };
            },
            FilterEdit::Level => {
                self.filters.level = if value.as_str().is_empty() {
                    None
                } else {
                    Level::parse(value.as_str())
                };
            },
            FilterEdit::IncludeProperty => {
                match PropertyFilterUpdate::parse(value.as_str(), false) {
                    Some(update) => {
                        self.filters.add_property_filter(update);
                    },
                    None => {},
                }
            },
            FilterEdit::ExcludeProperty => {
                match PropertyFilterUpdate::parse(value.as_str(), true) {
                    Some(update) => {
                        self.filters.add_property_filter(update);
                    },
                    None => {},
                }
            },
            FilterEdit::EditPropertyFilter => {
                match PropertyFilterUpdate::parse(value.as_str(), false) {
                    Some(update) => {
                        match editing_property_filter {
                            Some(id) => {
                                let _ = self.filters.replace_property_filter(id, update);
                            },
                            None => {},
                        }
                    },
                    None => {},
                }
            },
        }
        self.remember_change(previous_filters);
    }

    /// Drops every condition.
    pub fn clear(&mut self)
        ensures
            final(self)@ == old(self)@.changed(filter::no_filter()),
    {
        let previous_filters = self.filters.clone();
        self.filters.clear();
        self.remember_change(previous_filters);
    }

    /// Shows only events that show what a property shows.
    pub fn follow_property(&mut self, property: &LogProperty)
        ensures
            final(self)@ == old(self)@.changed(old(self)@.following(property@)),
    {
        let previous_filters = self.filters.clone();
        let predicate = PropertyPredicate::exact(
            property.key.clone(),
            copy_str(property.value.as_display_str()),
        );
        self.filters.add_property_filter(PropertyFilterUpdate { exclude: false, predicate });
        self.remember_change(previous_filters);
    }

    /// Puts a source in the place of the one that is shown. Nothing is done
    /// where it is the same up to case.
    pub fn replace_source_from_facet(&mut self, source: &str) -> (result: bool)
        ensures
            result == !(match old(self)@.filters.source {
                Some(current) => text::eq_ignore_case(current, source@),
                None => false,
            }),
            final(self)@ == if result {
                old(self)@.changed(FilterView { source: Some(source@), ..old(self)@.filters })
            } else {
                old(self)@
            },
    {
        let shown = match &self.filters.source {
            Some(current) => chars_eq_ignore_case(chars_of(current.as_str()).as_slice(), source),
            None => false,
        };
        if shown {
            return false;
        }
        let previous_filters = self.filters.clone();
        self.filters.source = Some(copy_str(source));
        self.remember_change(previous_filters);
        true
    }

    /// Puts a level in the place of the one that is shown.
    pub fn replace_level_from_facet(&mut self, level: Level) -> (result: bool)
        ensures
            result == (old(self)@.filters.level != Some(level)),
            final(self)@ == if result {
                old(self)@.changed(FilterView { level: Some(level), ..old(self)@.filters })
            } else {
                old(self)@
            },
    {
        let shown = match self.filters.level {
            Some(current) => current == level,
            None => false,
        };
        if shown {
            return false;
        }
        let previous_filters = self.filters.clone();
        self.filters.level = Some(level);
        self.remember_change(previous_filters);
        true
    }

    /// Puts one exact condition in the place of those on a property.
    pub fn replace_property_value_from_facet(&mut self, key: &str, value: &str) -> (result: bool)
        ensures
            result == !old(self)@.shows_only(key@, value@),
            final(self)@ == if result {
                old(self)@.changed(old(self)@.narrowed(key@, value@))
            } else {
                old(self)@
            },
    {
        let includes = collect_keyed(&self.filters.property_includes, key);
        let excludes = collect_keyed(&self.filters.property_excludes, key);
        let wanted = PropertyPredicate::exact(copy_str(key), copy_str(value));
        if excludes.len() == 0 && includes.len() == 1 && includes[0].same_as(&wanted) {
            assert(text::views(includes@) =~= seq![wanted@]);
            return false;
        }
        assert(!self@.shows_only(key@, value@)) by {
            if self@.shows_only(key@, value@) {
                let only = seq![wanted@];
                assert(text::views(includes@) == only);
                assert(only.len() == 1 && only[0] == wanted@);
                assert(text::views(includes@).len() == includes@.len());
                assert(text::views(includes@)[0] == includes@[0]@);
                assert(text::views(excludes@).len() == excludes@.len());
            }
        }
        let previous_filters = self.filters.clone();
        self.filters = self.filters.without_property_key(key);
        self.filters.add_property_filter(
            PropertyFilterUpdate { exclude: false, predicate: wanted },
        );
        self.remember_change(previous_filters);
        true
    }

    /// Goes back to the filter before the last change.
    pub fn undo(&mut self) -> (result: bool)
        ensures
            result == (old(self)@.history.len() > 0),
            final(self)@ == old(self)@.undone(),
    {
        match self.history.pop() {
            Some(filters) => {
                assert(text::views(self.history@) =~= old(self)@.history.drop_last());
                self.filters = filters;
                true
            },
            None => {
                assert(text::views(self.history@) =~= old(self)@.history);
                false
            },
        }
    }

    /// Saves the filter, where it is active and not saved already.
    pub fn save_preset(&mut self)
        ensures
            final(self)@ == old(self)@.saved(),
    {
        if !self.filters.has_active_filters() {
            return ;
        }
        let mut i: usize = 0;
        while i < self.presets.len()
            invariant
                i <= self.presets@.len(),
                *self == *old(self),
                self@.filters.active(),
                forall|j: int|
                    0 <= j < i ==> (#[trigger] self@.presets[j]).filters != self@.filters,
            decreases self.presets@.len() - i,
        {
            assert(self@.presets[i as int] == self.presets@[i as int]@);
            if self.presets[i].filters.same_as(&self.filters) {
                return ;
            }
            i += 1;
        }
        let number = decimal_string(self.presets.len() as u128 + 1);
        let preset = FilterPreset {
            name: concat("Preset ", number.as_str()),
            filters: self.filters.clone(),
        };
        self.presets.push(preset);
    }

    /// Applies a saved filter.
    pub fn apply_preset(&mut self, index: usize) -> (result: bool)
        ensures
            result == (index < old(self)@.presets.len()),
            final(self)@ == if result {
                old(self)@.changed(old(self)@.presets[index as int].filters)
            } else {
                old(self)@
            },
    {
        if index >= self.presets.len() {
            return false;
        }
        let previous_filters = self.filters.clone();
        self.filters = self.presets[index].filters.clone();
        self.remember_change(previous_filters);
        true
    }

    /// Forgets a saved filter.
    pub fn delete_preset(&mut self, index: usize) -> (result: bool)
        ensures
            result == (index < old(self)@.presets.len()),
            final(self)@ == if result {
                WorkflowView { presets: old(self)@.presets.remove(index as int), ..old(self)@ }
            } else {
                old(self)@
            },
    {
        if index >= self.presets.len() {
            return false;
        }
        let _ = self.presets.remove(index);
        assert(text::views(self.presets@) =~= old(self)@.presets.remove(index as int));
        true
    }

    /// The condition at a place.
    pub fn property_filter(&self, id: PropertyFilterId) -> (result: Option<&PropertyPredicate>)
        ensures
            match result {
                Some(predicate) => self@.filters.predicate_at(id) == Some(predicate@),
                None => self@.filters.predicate_at(id) is None,
            },
    {
        self.filters.property_filter(id)
    }

    /// Takes the condition at a place out.
    pub fn remove_property_filter(&mut self, id: PropertyFilterId) -> (result: Option<
        PropertyPredicate,
    >)
        ensures
            text::opt_view(result) == old(self)@.filters.predicate_at(id),
            final(self)@ == old(self)@.changed(old(self)@.filters.removed(id)),
    {
        let previous_filters = self.filters.clone();
        let removed = self.filters.remove_property_filter(id);
        self.remember_change(previous_filters);
        removed
    }

    fn all_property_filter_rows(&self) -> (result: Vec<PropertyFilterRow>)
        ensures
            text::views(result@) == property_rows(self@.filters),
    {
        let ghost all = property_rows(self@.filters);
        let mut rows: Vec<PropertyFilterRow> = Vec::new();
        assert(text::views(rows@) =~= all.take(0));
        let mut i: usize = 0;
        while i < self.filters.property_includes.len()
            invariant
                i <= self.filters.property_includes@.len(),
                all == property_rows(self@.filters),
                text::views(rows@) == all.take(i as int),
            decreases self.filters.property_includes@.len() - i,
        {
            let row = PropertyFilterRow {
                id: PropertyFilterId { exclude: false, index: i },
                kind: "show",
                summary: self.filters.property_includes[i].summary_for(false),
            };
            assert(row@ == all[i as int]);
            rows.push(row);
            assert(all.take(i + 1) =~= all.take(i as int).push(all[i as int]));
            i += 1;
        }
        let mut k: usize = 0;
        while k < self.filters.property_excludes.len()
            invariant
                k <= self.filters.property_excludes@.len(),
                i == self.filters.property_includes@.len(),
                all == property_rows(self@.filters),
                text::views(rows@) == all.take(i + k),
            decreases self.filters.property_excludes@.len() - k,
        {
            let row = PropertyFilterRow {
                id: PropertyFilterId { exclude: true, index: k },
                kind: "ignore",
                summary: self.filters.property_excludes[k].summary_for(true),
            };
            assert(row@ == all[i + k]);
            rows.push(row);
            assert(all.take(i + k + 1) =~= all.take(i + k).push(all[i + k]));
            k += 1;
        }
        assert(all.take(all.len() as int) =~= all);
        rows
    }

    /// The listed conditions that a query finds.
    pub fn property_filter_rows(&self, query: &str) -> (result: Vec<PropertyFilterRow>)
        ensures
            text::views(result@) == property_rows_matching(property_rows(self@.filters), query@),
    {
        let rows = self.all_property_filter_rows();
        let ghost all = text::views(rows@);
        let mut result: Vec<PropertyFilterRow> = Vec::new();
        let mut i: usize = 0;
        assert(text::views(result@) =~= all.take(0));
        while i < rows.len()
            invariant
                i <= rows@.len(),
                all == text::views(rows@),
                text::views(result@) == property_rows_matching(all.take(i as int), query@),
            decreases rows@.len() - i,
        {
            assert(all.take(i + 1).drop_last() =~= all.take(i as int));
            let row = &rows[i];
            if property_filter_row_matches(row, query) {
                result.push(
                    PropertyFilterRow { id: row.id, kind: row.kind, summary: row.summary.clone() },
                );
            }
            i += 1;
        }
        assert(all.take(i as int) =~= all);
        result
    }

    /// How many listed conditions a query finds.
    pub fn property_filter_row_count(&self, query: &str) -> (result: usize)
        ensures
            result == property_rows_matching(property_rows(self@.filters), query@).len(),
    {
        let rows = self.property_filter_rows(query);
        assert(text::views(rows@).len() == rows@.len());
        rows.len()
    }

    /// The listed presets that a query finds.
    pub fn filter_preset_rows(&self, query: &str) -> (result: Vec<FilterPresetRow>)
        ensures
            text::views(result@) == preset_rows_matching(preset_rows(self@.presets), query@),
    {
        let ghost all = preset_rows(self@.presets);
        let mut result: Vec<FilterPresetRow> = Vec::new();
        let mut i: usize = 0;
        assert(text::views(result@) =~= all.take(0));
        while i < self.presets.len()
            invariant
                i <= self.presets@.len(),
                all == preset_rows(self@.presets),
                text::views(result@) == preset_rows_matching(all.take(i as int), query@),
            decreases self.presets@.len() - i,
        {
            assert(all.take(i + 1).drop_last() =~= all.take(i as int));
            let preset = &self.presets[i];
            let row = FilterPresetRow {
                index: i,
                name: preset.name.clone(),
                summary: summarize_filter(&preset.filters),
            };
            assert(row@ == all[i as int]);
            if query.is_empty() || contains_ignore_ascii_case(row.name.as_str(), query)
                || contains_ignore_ascii_case(row.summary.as_str(), query) {
                result.push(row);
            }
            i += 1;
        }
        assert(all.take(i as int) =~= all);
        result
    }

    /// How many listed presets a query finds.
    pub fn filter_preset_row_count(&self, query: &str) -> (result: usize)
        ensures
            result == preset_rows_matching(preset_rows(self@.presets), query@).len(),
    {
        let rows = self.filter_preset_rows(query);
        assert(text::views(rows@).len() == rows@.len());
        rows.len()
    }
}

// ---------------------------------------------------------------------------
// Laws
// ---------------------------------------------------------------------------

/// Undoing a change that made a difference restores everything as it was.
pub proof fn law_undo_restores(workflow: WorkflowView, filters: FilterView)
    requires
        filters != workflow.filters,
    ensures
        workflow.changed(filters).undone() == workflow,
{
    assert(workflow.history.push(workflow.filters).drop_last() =~= workflow.history);
}

/// An edit that makes no difference leaves no trace.
pub proof fn law_unchanged_filter_leaves_no_trace(workflow: WorkflowView)
    ensures
        workflow.changed(workflow.filters) == workflow,
{
}

/// Saving a filter twice is saving it once.
pub proof fn law_saving_is_idempotent(workflow: WorkflowView)
    ensures
        workflow.saved().saved() == workflow.saved(),
{
    let once = workflow.saved();
    if once.presets.len() > workflow.presets.len() {
        assert(once.presets[workflow.presets.len() as int].filters == workflow.filters);
    }
}

/// A source that differs only in case shows the same events.
pub proof fn law_source_case_makes_no_difference(
    filter: FilterView,
    source: Seq<char>,
    event: EventView,
)
    requires
        filter.source is Some,
        text::eq_ignore_case(filter.source->0, source),
    ensures
        (FilterView { source: Some(source), ..filter }).matches(event) == filter.matches(event),
{
    let other = FilterView { source: Some(source), ..filter };
    let current = filter.source->0;
    assert(filter::is_set(other.source) == filter::is_set(filter.source));
    assert(text::eq_ignore_case(event.source, current) == text::eq_ignore_case(
        event.source,
        source,
    )) by {
        if text::eq_ignore_case(event.source, current) {
            assert forall|i: int| 0 <= i < event.source.len() implies text::lower(
                #[trigger] event.source[i],
            ) == text::lower(source[i]) by {
                assert(text::lower(current[i]) == text::lower(source[i]));
            }
        }
        if text::eq_ignore_case(event.source, source) {
            assert forall|i: int| 0 <= i < event.source.len() implies text::lower(
                #[trigger] event.source[i],
            ) == text::lower(current[i]) by {
                assert(text::lower(current[i]) == text::lower(source[i]));
            }
        }
    }
    assert(other.includes == filter.includes && other.excludes == filter.excludes);
}

} // verus!
