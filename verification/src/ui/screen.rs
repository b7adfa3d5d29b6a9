//! The screen: its head, the details of an event, and the lists over it.
use crate::app::facets::{self, FacetRowView};
use crate::app::sources::{SourceRowView, SourceStatusRow};
use crate::app::state::{self, AppView};
use crate::app::{App, DialogKind, Mode, PromptKind};
use crate::facet::escape::{self, escape_facet_text};
use crate::facet;
use crate::filter::workflow::{PresetRowView, PropertyRowView};
use crate::filter::{self, FilterView, LogFilter};
use crate::model::{self, EventView, LogEvent, LogProperty, PropertyView};
use crate::page_log::LogPageId;
use crate::text;
use crate::text::bytes::str_len;
use crate::text::number::{self, decimal_string};
use crate::text::{concat, concat3, copy_str, push_str, string_of};
use crate::ui::dialog::{ItemView, SelectableListItem};
use crate::ui::status::{self, push_part, SegmentView, StatusRole, StatusSegment};
use crate::ui::text::{self as fit, truncate_tail};
use vstd::prelude::*;

verus! {

broadcast use text::lemma_views_push;

// ---------------------------------------------------------------------------
// The head of the screen
// ---------------------------------------------------------------------------

/// The head of the screen.
pub open spec fn header_parts(app: AppView, visible_count: int) -> Seq<SegmentView> {
    let counts = seq![
        status::key_part(" loggle "@),
        status::value_part(
            if app.visible.follow {
                "follow"@
            } else {
                "paused"@
            },
        ),
        status::base_part("  retained "@),
        status::value_part(number::decimal(app.buffer.events.len())),
        status::base_part("  visible "@),
        status::value_part(number::decimal(visible_count as nat)),
        status::base_part("  markers "@),
        status::value_part(number::decimal(app.marked.len())),
    ];
    if app.visible.backlog == 0 {
        counts
    } else {
        counts.push(status::base_part("  new "@)).push(
            status::value_part(number::decimal(app.visible.backlog as nat)),
        )
    }
}

fn push_count(segments: &mut Vec<StatusSegment>, label: &str, count: usize)
    ensures
        text::views(final(segments)@) == text::views(old(segments)@).push(
            status::base_part(label@),
        ).push(status::value_part(number::decimal(count as nat))),
{
    push_part(segments, label, StatusRole::Base);
    push_part(segments, decimal_string(count as u128).as_str(), StatusRole::Value);
}

/// The head of the screen.
pub fn header_segments(app: &App, visible_count: usize) -> (result: Vec<StatusSegment>)
    ensures
        text::views(result@) == header_parts(app@, visible_count as int),
{
    let follow = if app.is_following() {
        "follow"
    } else {
        "paused"
    };
    let mut segments: Vec<StatusSegment> = Vec::new();
    push_part(&mut segments, " loggle ", StatusRole::Key);
    push_part(&mut segments, follow, StatusRole::Value);
    push_count(&mut segments, "  retained ", app.retained_len());
    push_count(&mut segments, "  visible ", visible_count);
    push_count(&mut segments, "  markers ", app.marker_count());
    let backlog = app.paused_backlog();
    if backlog > 0 {
        push_count(&mut segments, "  new ", backlog);
    }
    assert(text::views(segments@) =~= header_parts(app@, visible_count as int));
    segments
}

/// What is said of the page.
pub open spec fn page_label(id: Seq<char>, width: int) -> Seq<char> {
    " id="@ + fit::cut(id, width - 5) + " "@
}

/// What is said of the page, where there is room for it, and how wide it is.
pub fn page_id_label(id: &LogPageId, area_width: u16) -> (result: Option<(String, u16)>)
    ensures
        match result {
            Some((label, width)) => {
                &&& area_width >= 8
                &&& label@ == page_label(id@, area_width as int)
                &&& width == if text::bytes::byte_len(label@) > area_width {
                    area_width as nat
                } else {
                    text::bytes::byte_len(label@)
                }
            },
            None => area_width < 8,
        },
{
    if area_width < 8 {
        return None;
    }
    let available: usize = area_width as usize - 5;
    let value = truncate_tail(id.as_str(), available);
    let label = concat3(" id=", value.as_str(), " ");
    let length = str_len(label.as_str());
    let width: u16 = if length > area_width as usize {
        area_width
    } else {
        length as u16
    };
    Some((label, width))
}

// ---------------------------------------------------------------------------
// The details of an event
// ---------------------------------------------------------------------------

/// How high the details of an event are, where they are shown.
pub open spec fn details_rows(open: bool, height: int) -> Option<int> {
    if !open || height < 4 {
        None
    } else if height - 1 > 10 {
        Some(10)
    } else {
        Some(height - 1)
    }
}

/// How high the details of an event are, where they are shown.
pub fn details_height(open: bool, area_height: u16) -> (result: Option<u16>)
    ensures
        match result {
            Some(height) => details_rows(open, area_height as int) == Some(height as int),
            None => details_rows(open, area_height as int) is None,
        },
{
    if !open || area_height < 4 {
        None
    } else if area_height - 1 > 10 {
        Some(10)
    } else {
        Some(area_height - 1)
    }
}

/// The first lines of the details of an event.
pub open spec fn details_head(event: EventView, width: int) -> Seq<Seq<SegmentView>> {
    seq![
        seq![
            status::key_part(" details "@),
            status::base_part("source="@),
            status::value_part(fit::cut(event.source, 18)),
            status::base_part(" level="@),
            status::value_part(model::level_name(event.level)),
            status::base_part(" time="@),
            status::value_part(status::or_dash(event.timestamp)),
        ],
        seq![
            status::base_part(" message "@),
            status::value_part(fit::cut(event.message, status::above(width, 9))),
        ],
    ]
}

/// The line of a property.
pub open spec fn property_line(property: PropertyView, is_selected: bool, width: int) -> Seq<
    SegmentView,
> {
    let marker = if is_selected {
        ">"@
    } else {
        " "@
    };
    let shown = marker + " "@ + fit::cut(property.key, 24) + " = "@ + fit::cut(
        property.value.display(),
        status::above(width, 31),
    );
    seq![
        SegmentView {
            text: shown,
            role: if is_selected {
                StatusRole::Key
            } else {
                StatusRole::Value
            },
        },
    ]
}

/// The first of the properties that are shown.
pub open spec fn first_property(selected: int, rows: int) -> int {
    status::above(selected, status::above(rows, 1))
}

/// The lines of the properties that are shown: as many as there is room for,
/// the selected one among them.
pub open spec fn property_lines(
    properties: Seq<PropertyView>,
    selected: int,
    width: int,
    rows: int,
) -> Seq<Seq<SegmentView>> {
    let start = first_property(selected, rows);
    let end = if start + rows < properties.len() {
        start + rows
    } else {
        properties.len() as int
    };
    Seq::new(
        status::above(end, start) as nat,
        |i: int| property_line(properties[start + i], start + i == selected, width),
    )
}

/// The details of an event, line by line.
pub open spec fn details_lines(event: EventView, selected: int, width: int, height: int) -> Seq<
    Seq<SegmentView>,
> {
    let room = status::above(width, 2);
    details_head(event, room) + if event.properties.len() == 0 {
        seq![seq![status::base_part(" no properties"@)]]
    } else {
        property_lines(event.properties, selected, room, status::above(height, 2))
    }
}

/// The views of lines.
pub open spec fn segment_lines(lines: Seq<Vec<StatusSegment>>) -> Seq<Seq<SegmentView>> {
    Seq::new(lines.len(), |i: int| text::views(lines[i]@))
}

fn head_line(event: &LogEvent) -> (result: Vec<StatusSegment>)
    ensures
        text::views(result@) == details_head(event@, 0)[0],
{
    let mut line: Vec<StatusSegment> = Vec::new();
    push_part(&mut line, " details ", StatusRole::Key);
    push_part(&mut line, "source=", StatusRole::Base);
    push_part(
        &mut line,
        truncate_tail(event.source.as_str(), 18).as_str(),
        StatusRole::Value,
    );
    push_part(&mut line, " level=", StatusRole::Base);
    push_part(&mut line, event.level.as_str(), StatusRole::Value);
    push_part(&mut line, " time=", StatusRole::Base);
    let time = match &event.timestamp {
        Some(time) => time.as_str(),
        None => "-",
    };
    push_part(&mut line, time, StatusRole::Value);
    assert(text::views(line@) =~= details_head(event@, 0)[0]);
    line
}

fn render_property(property: &LogProperty, is_selected: bool, width: usize) -> (result: Vec<
    StatusSegment,
>)
    ensures
        text::views(result@) == property_line(property@, is_selected, width as int),
{
    let marker = if is_selected {
        ">"
    } else {
        " "
    };
    let mut shown: Vec<char> = Vec::new();
    push_str(&mut shown, marker);
    assert(shown@ =~= marker@);
    push_str(&mut shown, " ");
    push_str(&mut shown, truncate_tail(property.key.as_str(), 24).as_str());
    push_str(&mut shown, " = ");
    push_str(
        &mut shown,
        truncate_tail(property.value.as_display_str(), width.saturating_sub(31)).as_str(),
    );
    let role = if is_selected {
        StatusRole::Key
    } else {
        StatusRole::Value
    };
    let mut line: Vec<StatusSegment> = Vec::new();
    line.push(StatusSegment { text: string_of(shown.as_slice()), role });
    assert(text::views(line@) =~= property_line(property@, is_selected, width as int));
    line
}

/// The details of an event, line by line.
pub fn detail_lines(event: &LogEvent, selected: usize, width: u16, height: u16) -> (result: Vec<
    Vec<StatusSegment>,
>)
    ensures
        segment_lines(result@) == details_lines(
            event@,
            selected as int,
            width as int,
            height as int,
        ),
{
    let room: usize = (width as usize).saturating_sub(2);
    let ghost all = details_lines(event@, selected as int, width as int, height as int);
    let mut lines: Vec<Vec<StatusSegment>> = Vec::new();
    lines.push(head_line(event));
    let mut message: Vec<StatusSegment> = Vec::new();
    push_part(&mut message, " message ", StatusRole::Base);
    push_part(
        &mut message,
        truncate_tail(event.message.as_str(), room.saturating_sub(9)).as_str(),
        StatusRole::Value,
    );
    lines.push(message);
    let ghost head = details_head(event@, room as int);
    assert(text::views(message@) =~= head[1]);
    assert(head[0] == details_head(event@, 0)[0]);
    assert(segment_lines(lines@) =~= head);
    assert(event@.properties.len() == event.properties@.len());
    if event.properties.len() == 0 {
        let mut none: Vec<StatusSegment> = Vec::new();
        push_part(&mut none, " no properties", StatusRole::Base);
        lines.push(none);
        assert(text::views(none@) =~= seq![status::base_part(" no properties"@)]);
        assert(segment_lines(lines@) =~= all);
        return lines;
    }
    let rows: usize = (height as usize).saturating_sub(2);
    let start: usize = selected.saturating_sub(rows.saturating_sub(1));
    let end: usize = if start < event.properties.len() && rows < event.properties.len() - start {
        start + rows
    } else {
        event.properties.len()
    };
    let ghost shown = property_lines(event@.properties, selected as int, room as int, rows as int);
    let mut i: usize = start;
    assert(head + shown.take(0) =~= head);
    while i < end
        invariant
            start <= i,
            i <= end || i == start,
            end <= event.properties@.len(),
            start == first_property(selected as int, rows as int),
            shown == property_lines(
                event@.properties,
                selected as int,
                room as int,
                rows as int,
            ),
            start < end ==> shown.len() == end - start,
            segment_lines(lines@) == head + shown.take(i - start),
        decreases end - i,
    {
        let line = render_property(&event.properties[i], i == selected, room);
        assert(event@.properties[i as int] == event.properties@[i as int]@);
        assert(shown[i - start] == text::views(line@));
        let ghost before = segment_lines(lines@);
        lines.push(line);
        assert(segment_lines(lines@) =~= before.push(text::views(line@)));
        assert(head + shown.take(i - start + 1) =~= (head + shown.take(i - start)).push(
            shown[i - start],
        ));
        i += 1;
    }
    assert(shown.take(i - start) =~= shown);
    lines
}

/// The selected property is among those that are shown.
pub proof fn law_selected_property_is_shown(
    properties: Seq<PropertyView>,
    selected: int,
    width: int,
    rows: int,
)
    requires
        0 <= selected < properties.len(),
        0 < rows,
    ensures
        ({
            let start = first_property(selected, rows);
            let lines = property_lines(properties, selected, width, rows);
            &&& 0 <= start <= selected < start + lines.len()
            &&& lines.len() <= rows
            &&& lines[selected - start] == property_line(properties[selected], true, width)
        }),
{
}

// ---------------------------------------------------------------------------
// Rows of events
// ---------------------------------------------------------------------------

/// What is highlighted in messages: the values that are asked for, and the text
/// that is searched.
pub open spec fn sought(filters: FilterView) -> Seq<Seq<char>> {
    let values = filter::shown_values(filters.includes + filters.excludes);
    match filters.text {
        Some(query) => if query.len() > 0 {
            values.push(query)
        } else {
            values
        },
        None => values,
    }
}

/// What is highlighted in messages.
pub fn highlight_values(filters: &LogFilter) -> (result: Vec<&str>)
    ensures
        text::views(result@) == sought(filters@),
{
    let mut values = filters.property_highlight_values();
    assert(text::views(values@) =~= filter::str_views(values@));
    match &filters.text {
        Some(query) => {
            if !query.as_str().is_empty() {
                values.push(query.as_str());
            }
        },
        None => {},
    }
    values
}

/// Whether a row is shown as selected.
pub fn row_is_selected(
    visible_index: usize,
    selected: usize,
    visual_range: Option<(usize, usize)>,
) -> (result: bool)
    ensures
        result == (visible_index == selected || match visual_range {
            Some((start, end)) => start <= visible_index <= end,
            None => false,
        }),
{
    visible_index == selected || match visual_range {
        Some((start, end)) => start <= visible_index && visible_index <= end,
        None => false,
    }
}

// ---------------------------------------------------------------------------
// Prompts and dialogs
// ---------------------------------------------------------------------------

/// What stands before what is typed.
pub open spec fn prompt_head(mode: Mode) -> Seq<char> {
    match mode {
        Mode::Prompt(PromptKind::Text) => "/"@,
        Mode::Prompt(PromptKind::Source) => "source: "@,
        Mode::Prompt(PromptKind::Level) => "level: "@,
        Mode::Prompt(PromptKind::IncludeProperty) => "show prop: "@,
        Mode::Prompt(PromptKind::ExcludeProperty) => "hide prop: "@,
        Mode::Prompt(PromptKind::EditPropertyFilter) => "edit prop: "@,
        _ => ""@,
    }
}

/// What stands before what is typed.
pub fn prompt_label(mode: Mode) -> (result: &'static str)
    ensures
        result@ == prompt_head(mode),
{
    match mode {
        Mode::Prompt(PromptKind::Text) => "/",
        Mode::Prompt(PromptKind::Source) => "source: ",
        Mode::Prompt(PromptKind::Level) => "level: ",
        Mode::Prompt(PromptKind::IncludeProperty) => "show prop: ",
        Mode::Prompt(PromptKind::ExcludeProperty) => "hide prop: ",
        Mode::Prompt(PromptKind::EditPropertyFilter) => "edit prop: ",
        _ => "",
    }
}

/// The title of a dialog.
pub open spec fn title_of(kind: DialogKind) -> Seq<char> {
    match kind {
        DialogKind::PropertyFilters => "Property filters"@,
        DialogKind::MessageFields => "Pinned fields"@,
        DialogKind::FilterPresets => "Filter presets"@,
        DialogKind::Sources => "Sources"@,
        DialogKind::Facets => "Facets"@,
    }
}

/// The title of a dialog.
pub fn dialog_title(kind: DialogKind) -> (result: &'static str)
    ensures
        result@ == title_of(kind),
{
    match kind {
        DialogKind::PropertyFilters => "Property filters",
        DialogKind::MessageFields => "Pinned fields",
        DialogKind::FilterPresets => "Filter presets",
        DialogKind::Sources => "Sources",
        DialogKind::Facets => "Facets",
    }
}

/// The row of a dialog that has none.
pub open spec fn empty_row(kind: DialogKind) -> ItemView {
    let (label, description) = match kind {
        DialogKind::PropertyFilters => ("No property filters"@, "Add filters with f, +, or -"@),
        DialogKind::MessageFields => ("No pinned fields"@, "Add fields with m from details"@),
        DialogKind::FilterPresets => ("No filter presets"@, "Save the current filters with S"@),
        DialogKind::Sources => ("No sources"@, "Observed sources appear after logs arrive"@),
        DialogKind::Facets => ("No facets"@, "Facets appear after logs arrive"@),
    };
    ItemView { shortcut: None, label, description }
}

/// The row of a dialog that has none.
pub fn empty_dialog_item(kind: DialogKind) -> (result: SelectableListItem)
    ensures
        result@ == empty_row(kind),
{
    let (label, description) = match kind {
        DialogKind::PropertyFilters => ("No property filters", "Add filters with f, +, or -"),
        DialogKind::MessageFields => ("No pinned fields", "Add fields with m from details"),
        DialogKind::FilterPresets => ("No filter presets", "Save the current filters with S"),
        DialogKind::Sources => ("No sources", "Observed sources appear after logs arrive"),
        DialogKind::Facets => ("No facets", "Facets appear after logs arrive"),
    };
    SelectableListItem {
        shortcut: None,
        label: copy_str(label),
        description: copy_str(description),
    }
}

/// The row of a condition.
pub open spec fn property_item(row: PropertyRowView) -> ItemView {
    ItemView {
        shortcut: Some(row.kind),
        label: row.summary,
        description: "Enter edit  Backspace/Delete remove"@,
    }
}

/// The row of a pinned field.
pub open spec fn field_item(key: Seq<char>) -> ItemView {
    ItemView { shortcut: None, label: key, description: "Backspace/Delete remove"@ }
}

/// The row of a preset.
pub open spec fn preset_item(row: PresetRowView) -> ItemView {
    ItemView { shortcut: None, label: row.name, description: row.summary }
}

/// A source in words.
pub open spec fn source_text(row: SourceRowView) -> Seq<char> {
    number::decimal(row.count as nat) + " rows  "@ + number::decimal(row.errors as nat)
        + " errors  "@ + number::decimal(row.warnings as nat) + " warnings  last "@
        + model::level_name(row.last_level) + " #"@ + number::decimal(row.last_sequence as nat)
}

/// The row of a source.
pub open spec fn source_item(row: SourceRowView) -> ItemView {
    ItemView { shortcut: None, label: row.source, description: source_text(row) }
}

/// The row of a facet value.
pub open spec fn facet_item(row: FacetRowView) -> ItemView {
    ItemView {
        shortcut: Some(facet::kind_name(row.facet)),
        label: escape::escape(row.value),
        description: number::decimal(row.count as nat) + " records"@,
    }
}

/// The rows of a dialog, or one that says that it has none.
pub open spec fn dialog_rows(app: AppView, kind: DialogKind) -> Seq<ItemView> {
    let query = text::trim(app.list(kind).query);
    let rows = match kind {
        DialogKind::PropertyFilters => app.property_rows(query).map_values(
            |row: PropertyRowView| property_item(row),
        ),
        DialogKind::MessageFields => state::keys_matching(app.field_rows, query).map_values(
            |key: Seq<char>| field_item(key),
        ),
        DialogKind::FilterPresets => app.preset_rows(query).map_values(
            |row: PresetRowView| preset_item(row),
        ),
        DialogKind::Sources => app.source_rows(query).map_values(
            |row: SourceRowView| source_item(row),
        ),
        DialogKind::Facets => facets::rows_matching(app.active_facet_rows(), query).map_values(
            |row: FacetRowView| facet_item(row),
        ),
    };
    if rows.len() == 0 {
        seq![empty_row(kind)]
    } else {
        rows
    }
}

fn source_summary(row: &SourceStatusRow) -> (result: String)
    ensures
        result@ == source_text(row@),
{
    let mut out: Vec<char> = Vec::new();
    push_str(&mut out, decimal_string(row.count as u128).as_str());
    assert(out@ =~= number::decimal(row@.count as nat));
    push_str(&mut out, " rows  ");
    push_str(&mut out, decimal_string(row.errors as u128).as_str());
    push_str(&mut out, " errors  ");
    push_str(&mut out, decimal_string(row.warnings as u128).as_str());
    push_str(&mut out, " warnings  last ");
    push_str(&mut out, row.last_level.as_str());
    push_str(&mut out, " #");
    push_str(&mut out, decimal_string(row.last_sequence as u128).as_str());
    string_of(out.as_slice())
}

fn property_items(app: &App) -> (result: Vec<SelectableListItem>)
    ensures
        text::views(result@) == app@.property_rows(
            text::trim(app@.property_filters.query),
        ).map_values(|row: PropertyRowView| property_item(row)),
{
    let rows = app.property_filter_rows();
    let ghost all = text::views(rows@).map_values(|row: PropertyRowView| property_item(row));
    let mut items: Vec<SelectableListItem> = Vec::new();
    let mut i: usize = 0;
    assert(text::views(items@) =~= all.take(0));
    while i < rows.len()
        invariant
            i <= rows@.len(),
            all == text::views(rows@).map_values(|row: PropertyRowView| property_item(row)),
            text::views(items@) == all.take(i as int),
        decreases rows@.len() - i,
    {
        items.push(
            SelectableListItem {
                shortcut: Some(copy_str(rows[i].kind)),
                label: rows[i].summary.clone(),
                description: copy_str("Enter edit  Backspace/Delete remove"),
            },
        );
        assert(all[i as int] == property_item(rows@[i as int]@));
        assert(all.take(i + 1) =~= all.take(i as int).push(all[i as int]));
        i += 1;
    }
    assert(all.take(i as int) =~= all);
    items
}

fn field_items(app: &App) -> (result: Vec<SelectableListItem>)
    ensures
        text::views(result@) == state::keys_matching(
            app@.field_rows,
            text::trim(app@.message_fields.query),
        ).map_values(|key: Seq<char>| field_item(key)),
{
    let rows = app.message_field_rows();
    let ghost all = text::views(rows@).map_values(|key: Seq<char>| field_item(key));
    let mut items: Vec<SelectableListItem> = Vec::new();
    let mut i: usize = 0;
    assert(text::views(items@) =~= all.take(0));
    while i < rows.len()
        invariant
            i <= rows@.len(),
            all == text::views(rows@).map_values(|key: Seq<char>| field_item(key)),
            text::views(items@) == all.take(i as int),
        decreases rows@.len() - i,
    {
        items.push(
            SelectableListItem {
                shortcut: None,
                label: copy_str(rows[i]),
                description: copy_str("Backspace/Delete remove"),
            },
        );
        assert(all[i as int] == field_item(rows@[i as int]@));
        assert(all.take(i + 1) =~= all.take(i as int).push(all[i as int]));
        i += 1;
    }
    assert(all.take(i as int) =~= all);
    items
}

fn preset_items(app: &App) -> (result: Vec<SelectableListItem>)
    ensures
        text::views(result@) == app@.preset_rows(text::trim(app@.preset_list.query)).map_values(
            |row: PresetRowView| preset_item(row),
        ),
{
    let rows = app.filter_preset_rows();
    let ghost all = text::views(rows@).map_values(|row: PresetRowView| preset_item(row));
    let mut items: Vec<SelectableListItem> = Vec::new();
    let mut i: usize = 0;
    assert(text::views(items@) =~= all.take(0));
    while i < rows.len()
        invariant
            i <= rows@.len(),
            all == text::views(rows@).map_values(|row: PresetRowView| preset_item(row)),
            text::views(items@) == all.take(i as int),
        decreases rows@.len() - i,
    {
        items.push(
            SelectableListItem {
                shortcut: None,
                label: rows[i].name.clone(),
                description: rows[i].summary.clone(),
            },
        );
        assert(all[i as int] == preset_item(rows@[i as int]@));
        assert(all.take(i + 1) =~= all.take(i as int).push(all[i as int]));
        i += 1;
    }
    assert(all.take(i as int) =~= all);
    items
}

fn source_items(app: &App) -> (result: Vec<SelectableListItem>)
    ensures
        text::views(result@) == app@.source_rows(text::trim(app@.sources.query)).map_values(
            |row: SourceRowView| source_item(row),
        ),
{
    let rows = app.source_status_rows();
    let ghost all = text::views(rows@).map_values(|row: SourceRowView| source_item(row));
    let mut items: Vec<SelectableListItem> = Vec::new();
    let mut i: usize = 0;
    assert(text::views(items@) =~= all.take(0));
    while i < rows.len()
        invariant
            i <= rows@.len(),
            all == text::views(rows@).map_values(|row: SourceRowView| source_item(row)),
            text::views(items@) == all.take(i as int),
        decreases rows@.len() - i,
    {
        items.push(
            SelectableListItem {
                shortcut: None,
                label: rows[i].source.clone(),
                description: source_summary(&rows[i]),
            },
        );
        assert(all[i as int] == source_item(rows@[i as int]@));
        assert(all.take(i + 1) =~= all.take(i as int).push(all[i as int]));
        i += 1;
    }
    assert(all.take(i as int) =~= all);
    items
}

fn facet_items(app: &App) -> (result: Vec<SelectableListItem>)
    ensures
        text::views(result@) == facets::rows_matching(
            app@.active_facet_rows(),
            text::trim(app@.list(DialogKind::Facets).query),
        ).map_values(|row: FacetRowView| facet_item(row)),
{
    let rows = app.facet_dialog_rows();
    let ghost all = text::views(rows@).map_values(|row: FacetRowView| facet_item(row));
    let mut items: Vec<SelectableListItem> = Vec::new();
    let mut i: usize = 0;
    assert(text::views(items@) =~= all.take(0));
    while i < rows.len()
        invariant
            i <= rows@.len(),
            all == text::views(rows@).map_values(|row: FacetRowView| facet_item(row)),
            text::views(items@) == all.take(i as int),
        decreases rows@.len() - i,
    {
        items.push(
            SelectableListItem {
                shortcut: Some(copy_str(rows[i].facet.as_str())),
                label: escape_facet_text(rows[i].value.as_str()),
                description: concat(decimal_string(rows[i].count as u128).as_str(), " records"),
            },
        );
        assert(all[i as int] == facet_item(rows@[i as int]@));
        assert(all.take(i + 1) =~= all.take(i as int).push(all[i as int]));
        i += 1;
    }
    assert(all.take(i as int) =~= all);
    items
}

/// The rows of a dialog, or one that says that it has none.
pub fn dialog_items(app: &App, kind: DialogKind) -> (result: Vec<SelectableListItem>)
    ensures
        text::views(result@) == dialog_rows(app@, kind),
{
    let mut items = match kind {
        DialogKind::PropertyFilters => property_items(app),
        DialogKind::MessageFields => field_items(app),
        DialogKind::FilterPresets => preset_items(app),
        DialogKind::Sources => source_items(app),
        DialogKind::Facets => facet_items(app),
    };
    assert(text::views(items@).len() == items@.len());
    if items.len() == 0 {
        items.push(empty_dialog_item(kind));
        assert(text::views(items@) =~= seq![empty_row(kind)]);
    }
    items
}

} // verus!
