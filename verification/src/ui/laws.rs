//! What is put on the screen.
use crate::app::facets::{self, FacetRowView};
use crate::app::sources::SourceRowView;
use crate::app::state::{self, AppView};
use crate::app::{DialogKind, Mode, PromptKind};
use crate::commands::CommandView;
use crate::filter::{self, FilterView};
use crate::model::{self, EventView, PropertyView};
use crate::text;
use crate::text::laws as texts;
use crate::text::laws::{is_blank, is_tight, is_word};
use crate::text::{number, split};
use crate::ui::dialog::{self, ItemView};
use crate::ui::row::{self, ColumnView, SpanRole, SpanView};
use crate::ui::status::{self, HelpVariant};
use crate::ui::text as fit;
use crate::ui::screen;
use vstd::prelude::*;

verus! {

// ---------------------------------------------------------------------------
// Texts
// ---------------------------------------------------------------------------

/// A text that is cut keeps its beginning and ends with a mark; one that fits is
/// kept as it is.
pub proof fn law_cut_text_keeps_its_beginning(s: Seq<char>, max: int)
    requires
        max > 0,
    ensures
        s.len() <= max ==> fit::cut(s, max) == s,
        s.len() > max ==> fit::cut(s, max).len() == max && fit::cut(s, max).last() == '~'
            && fit::cut(s, max).drop_last() == s.take(max - 1),
{
    if s.len() > max {
        assert(s.take(max - 1).push('~').drop_last() =~= s.take(max - 1));
    }
}

/// A cell begins with its text, with blanks after it; a number stands at the end of
/// its cell.
pub proof fn law_cells_are_filled_with_blanks(s: Seq<char>, width: int, i: int)
    requires
        s.len() <= width,
    ensures
        fit::cell(s, width).len() == width,
        fit::cell(s, width).take(s.len() as int) == s,
        s.len() <= i < width ==> fit::cell(s, width)[i] == ' ',
        fit::padded_left(s, width).len() == width,
        fit::padded_left(s, width).skip(width - s.len()) == s,
        0 <= i < width - s.len() ==> fit::padded_left(s, width)[i] == ' ',
{
    assert(fit::cell(s, width).take(s.len() as int) =~= s);
    assert(fit::padded_left(s, width).skip(width - s.len()) =~= s);
}

/// A message is shown with one blank between its words, and none round them.
pub proof fn law_messages_are_shown_with_single_blanks(
    pad: Seq<char>,
    first: Seq<char>,
    gap: Seq<char>,
    second: Seq<char>,
)
    requires
        is_blank(pad),
        is_word(first),
        is_blank(gap) && gap.len() > 0,
        is_word(second),
    ensures
        fit::compact(pad + first + (gap + second + pad)) == first + seq![' '] + second,
        fit::compact(pad + first + pad) == first,
        fit::compact(pad).len() == 0,
{
    reveal_strlit(" ");
    assert(" "@ =~= seq![' ']);
    let none = Seq::<char>::empty();
    assert((gap + second + pad)[0] == gap[0]);
    texts::law_words_stand_between_white_space(pad, first, gap + second + pad);
    texts::law_words_stand_between_white_space(gap, second, pad);
    texts::law_words_stand_between_white_space(pad, first, pad);
    assert(split::words(pad) =~= Seq::<Seq<char>>::empty());
    assert(split::words(pad + first + (gap + second + pad)) =~= seq![first].push(second));
    assert(split::words(pad + first + pad) =~= seq![first]);
    texts::law_joining_separates(seq![first], second, " "@);
    texts::law_joining_separates(Seq::empty(), first, " "@);
}

/// A message that fits is one line; one that does not is broken at the last blank
/// that leaves a line narrow enough, and what follows is on the next lines.
pub proof fn law_messages_are_broken_at_blanks(
    first: Seq<char>,
    rest: Seq<char>,
    width: int,
    max_lines: int,
)
    requires
        is_tight(first),
        rest.len() > 0 && !text::is_space(rest[0]),
        0 < first.len() < width,
        first.len() + 1 + rest.len() > width,
        width - first.len() - 1 <= rest.len(),
        forall|i: int|
            0 <= i < width - first.len() - 1 ==> !text::is_space(#[trigger] rest[i]),
        max_lines > 1,
    ensures
        ({
            let s = first + seq![' '] + rest;
            row::wrapped_from(s, 0, width, max_lines) == seq![first] + row::wrapped_from(
                s,
                first.len() as int + 1,
                width,
                max_lines - 1,
            )
        }),
        row::wrapped(first, width, max_lines) == seq![first],
{
    let s = first + seq![' '] + rest;
    assert(s[0] == first[0]);
    let at = first.len() as int;
    assert(s[at] == ' ');
    lemma_last_space(s, 0, width, at);
    assert(s.subrange(0, at) =~= first);
    assert(first.skip(0) =~= first);
}

proof fn lemma_last_space(s: Seq<char>, from: int, to: int, at: int)
    requires
        from <= at < to <= s.len(),
        0 <= from,
        text::is_space(s[at]),
        forall|i: int| at < i < to ==> !text::is_space(#[trigger] s[i]),
    ensures
        row::last_space(s, from, to) == Some(at),
    decreases to - at,
{
    if at < to - 1 {
        assert(!text::is_space(s[to - 1]));
        lemma_last_space(s, from, to - 1, at);
    }
}

/// A word too long for a line is broken where the line ends.
pub proof fn law_long_words_are_broken(s: Seq<char>, width: int, max_lines: int)
    requires
        is_word(s),
        0 < width < s.len(),
    ensures
        max_lines > 1 ==> row::wrapped_from(s, 0, width, max_lines) == seq![s.take(width)]
            + row::wrapped_from(s, width, width, max_lines - 1),
        row::wrapped_from(s, 0, width, 1) == seq![s.take(width - 1).push('~')],
{
    assert(!text::is_space(s[0]));
    lemma_no_space(s, 0, width);
    assert(s.subrange(0, width) =~= s.take(width));
    assert(!text::is_space(s[width]));
    assert(s.take(width).take(width - 1) =~= s.take(width - 1));
    assert(row::wrapped_from(s, width, width, 0) =~= Seq::<Seq<char>>::empty());
    assert(seq![s.take(width - 1).push('~')] + Seq::<Seq<char>>::empty() =~= seq![
        s.take(width - 1).push('~'),
    ]);
}

proof fn lemma_no_space(s: Seq<char>, from: int, to: int)
    requires
        is_word(s),
        0 <= from <= to <= s.len(),
    ensures
        row::last_space(s, from, to) is None,
    decreases to - from,
{
    if to > from {
        assert(!text::is_space(s[to - 1]));
        lemma_no_space(s, from, to - 1);
    }
}

/// What is sought is highlighted where it stands, for the first time in a message
/// that holds it once, and nothing else is.
pub proof fn law_sought_text_is_highlighted(head: Seq<char>, value: Seq<char>)
    requires
        value.len() > 0,
        head.len() > 0,
        row::has_alphanumeric(value),
        forall|at: int|
            0 <= at < head.len() ==> #[trigger] (head + value).subrange(at, at + value.len())
                != value,
    ensures
        row::message_parts(head + value, seq![value]) == seq![
            SpanView { text: head, role: SpanRole::Text },
            SpanView { text: value, role: SpanRole::Highlight },
        ],
        row::message_parts(head, Seq::empty()) == seq![
            SpanView { text: head, role: SpanRole::Text },
        ],
{
    let s = head + value;
    let values = seq![value];
    assert(values[0].len() > 0);
    assert(s.subrange(head.len() as int, s.len() as int) =~= value);
    lemma_place(s, value, 0, head.len() as int);
    assert(row::highlight_from(s, value, 0) == Some(head.len() as int));
    assert(values.drop_last() =~= Seq::<Seq<char>>::empty());
    assert(row::first_highlight(s, values.drop_last()) is None);
    assert(values.last() == value);
    assert(row::first_highlight(s, values) == Some((head.len() as int, value)));
    assert(s.take(head.len() as int) =~= head);
    let rest = s.skip(head.len() as int + value.len());
    assert(rest.len() == 0);
    assert(row::highlighted(rest, values) =~= Seq::<SpanView>::empty());
    assert(row::highlighted(s, values) =~= seq![
        SpanView { text: head, role: SpanRole::Text },
        SpanView { text: value, role: SpanRole::Highlight },
    ]);
}

proof fn lemma_place(s: Seq<char>, value: Seq<char>, from: int, at: int)
    requires
        0 <= from <= at,
        at + value.len() == s.len(),
        s.subrange(at, s.len() as int) == value,
        forall|k: int|
            0 <= k < at ==> #[trigger] s.subrange(k, k + value.len()) != value,
    ensures
        row::place_from(s, value, from) == Some(at),
    decreases at - from,
{
    if from < at {
        assert(s.subrange(from, from + value.len()) != value);
        lemma_place(s, value, from + 1, at);
    }
}

// ---------------------------------------------------------------------------
// Rows
// ---------------------------------------------------------------------------

/// A row begins with the mark of its event, its number, its source and its level.
pub proof fn law_row_begins_with_its_event(event: EventView, color: bool, marked: bool)
    ensures
        ({
            let prefix = row::row_prefix(event, color, marked);
            &&& prefix.len() == 6
            &&& prefix[0].text == if marked {
                seq!['*']
            } else {
                seq![' ']
            }
            &&& prefix[1].text == fit::padded_left(number::decimal(event.sequence as nat), 6)
                + seq![' ']
            &&& prefix[2].text == fit::cell(event.source, 14)
            &&& prefix[4].text == fit::padded_right(model::level_name(event.level), 7)
            &&& color ==> prefix[4].role == SpanRole::Level(event.level)
            &&& !color ==> prefix[2].role == SpanRole::Text && prefix[4].role == SpanRole::Text
        }),
{
    reveal_strlit("*");
    reveal_strlit(" ");
    assert("*"@ =~= seq!['*']);
    assert(" "@ =~= seq![' ']);
}

/// A pinned column shows the value of its property, and a dash where the event has
/// none.
pub proof fn law_columns_show_their_property(event: EventView, key: Seq<char>)
    ensures
        model::property_value(event.properties, key) is Some ==> row::column_value(event, key)
            == model::property_value(event.properties, key)->0.display(),
        model::property_value(event.properties, key) is None ==> row::column_value(event, key)
            == seq!['-'],
{
    reveal_strlit("-");
    assert("-"@ =~= seq!['-']);
}

/// The columns of a row stand behind its message, each in its own width, and the
/// message has the rest of the width.
pub proof fn law_message_has_the_rest_of_the_width(
    width: int,
    columns: Seq<ColumnView>,
    column: ColumnView,
)
    ensures
        row::columns_width(columns.push(column)) == row::columns_width(columns) + column.width + 1,
        row::columns_width(Seq::empty()) == 0,
        width - 31 - row::columns_width(columns) >= 1 ==> row::room_for_message(width, columns)
            == width - 31 - row::columns_width(columns),
        row::room_for_message(width, columns) >= 1,
{
    assert(columns.push(column).drop_last() =~= columns);
}

// ---------------------------------------------------------------------------
// The head and the foot
// ---------------------------------------------------------------------------

/// The head of the screen says whether the view follows, how many events are
/// retained, shown and marked, and how many came while it was paused.
pub proof fn law_head_tells_the_state(app: AppView, count: int)
    ensures
        ({
            let parts = screen::header_parts(app, count);
            &&& app.visible.follow ==> parts[1].text == "follow"@
            &&& !app.visible.follow ==> parts[1].text == "paused"@
            &&& parts[3].text == number::decimal(app.buffer.events.len())
            &&& parts[5].text == number::decimal(count as nat)
            &&& parts[7].text == number::decimal(app.marked.len())
            &&& app.visible.backlog == 0 ==> parts.len() == 8
            &&& app.visible.backlog > 0 ==> parts.len() == 10 && parts[9].text == number::decimal(
                app.visible.backlog as nat,
            )
        }),
{
}

/// The foot of the screen shows what is told, else in visual mode how many events
/// are selected, and else the filter.
pub proof fn law_foot_tells_the_filter(app: AppView, width: int, notice: Seq<char>)
    ensures
        app.notice == Some(notice) ==> status::status_parts(app, width)[1].text == fit::cut(
            notice,
            width,
        ),
        app.notice is None && app.mode == Mode::Visual ==> status::status_parts(app, width)[1].text
            == status::lines_text(status::selected_count(app)),
        app.notice is None && app.mode != Mode::Visual ==> ({
            let parts = status::status_parts(app, width);
            let filters = app.workflow.filters;
            let limits = status::limits_for(width, status::help_for(width));
            &&& parts.len() >= 9
            &&& filters.source is Some ==> parts[2].text == fit::cut(
                filters.source->0,
                limits.source,
            )
            &&& filters.level is Some ==> parts[4].text == fit::cut(
                model::level_name(filters.level->0),
                limits.level,
            )
            &&& filters.text is Some ==> parts[6].text == fit::cut(filters.text->0, limits.text)
            &&& filters.source is None ==> parts[2].text == fit::cut("-"@, limits.source)
            &&& filters.level is None ==> parts[4].text == fit::cut("-"@, limits.level)
            &&& filters.text is None ==> parts[6].text == fit::cut("-"@, limits.text)
            &&& parts[8].text == fit::cut(status::conditions_text(filters), limits.properties)
        }),
        app.visual_range() matches Some((start, end)) ==> status::selected_count(app) == end - start
            + 1,
{
}

/// A number of lines is told as it is said.
pub proof fn law_lines_are_counted_in_words(count: int)
    requires
        count >= 0,
    ensures
        status::lines_text(1) == "1 line"@,
        count != 1 ==> status::lines_text(count) == number::decimal(count as nat) + " lines"@,
{
}

// ---------------------------------------------------------------------------
// Details and dialogs
// ---------------------------------------------------------------------------

/// The details of an event show its source, its level, its time and its message,
/// and its properties with the selected one marked.
pub proof fn law_details_show_the_event(
    event: EventView,
    property: PropertyView,
    selected: bool,
    width: int,
)
    ensures
        ({
            let head = screen::details_head(event, width);
            let line = screen::property_line(property, selected, width);
            &&& head[0][2].text == fit::cut(event.source, 18)
            &&& head[0][4].text == model::level_name(event.level)
            &&& event.timestamp is Some ==> head[0][6].text == event.timestamp->0
            &&& event.timestamp is None ==> head[0][6].text == "-"@
            &&& head[1][1].text == fit::cut(
                event.message,
                if width > 9 {
                    width - 9
                } else {
                    0
                },
            )
            &&& line.len() == 1
            &&& line[0].text == (if selected {
                ">"@
            } else {
                " "@
            }) + " "@ + fit::cut(property.key, 24) + " = "@ + fit::cut(
                property.value.display(),
                if width > 31 {
                    width - 31
                } else {
                    0
                },
            )
        }),
{
}

/// The details take up to ten rows, one less than there are, and none where they
/// are closed.
pub proof fn law_details_have_their_height(height: int)
    ensures
        screen::details_rows(false, height) is None,
        height < 4 ==> screen::details_rows(true, height) is None,
        4 <= height <= 11 ==> screen::details_rows(true, height) == Some(height - 1),
        height > 11 ==> screen::details_rows(true, height) == Some(10int),
{
}

/// What is sought in messages is the text that is searched and the values that
/// conditions ask for.
pub proof fn law_search_and_values_are_sought(filters: FilterView, value: Seq<char>)
    ensures
        filters.text == Some(value) && value.len() > 0 ==> screen::sought(filters).contains(value),
        filter::shown_values(filters.includes + filters.excludes).contains(value)
            ==> screen::sought(filters).contains(value),
{
    let values = filter::shown_values(filters.includes + filters.excludes);
    let all = screen::sought(filters);
    if filters.text == Some(value) && value.len() > 0 {
        assert(all[values.len() as int] == value);
    }
    if values.contains(value) {
        let k = choose|k: int| 0 <= k < values.len() && values[k] == value;
        assert(all[k] == value);
    }
}

/// A prompt says what it asks for, and a dialog what it lists.
pub proof fn law_prompts_and_dialogs_are_named()
    ensures
        screen::prompt_head(Mode::Prompt(PromptKind::Text)) == "/"@,
        screen::prompt_head(Mode::Prompt(PromptKind::Source)) == "source: "@,
        screen::prompt_head(Mode::Prompt(PromptKind::Level)) == "level: "@,
        screen::prompt_head(Mode::Prompt(PromptKind::IncludeProperty)) == "show prop: "@,
        screen::prompt_head(Mode::Prompt(PromptKind::ExcludeProperty)) == "hide prop: "@,
        screen::title_of(DialogKind::PropertyFilters) == "Property filters"@,
        screen::title_of(DialogKind::MessageFields) == "Pinned fields"@,
        screen::title_of(DialogKind::FilterPresets) == "Filter presets"@,
        screen::title_of(DialogKind::Sources) == "Sources"@,
        screen::title_of(DialogKind::Facets) == "Facets"@,
{
}

/// A source is told with its counts, and a facet value with its kind and its count.
pub proof fn law_rows_tell_their_counts(source: SourceRowView, value: FacetRowView)
    ensures
        screen::source_item(source).label == source.source,
        screen::source_item(source).description == number::decimal(source.count as nat)
            + " rows  "@ + number::decimal(source.errors as nat) + " errors  "@ + number::decimal(
            source.warnings as nat,
        ) + " warnings  last "@ + model::level_name(source.last_level) + " #"@ + number::decimal(
            source.last_sequence as nat,
        ),
        screen::facet_item(value).label == crate::facet::escape::escape(value.value),
        screen::facet_item(value).description == number::decimal(value.count as nat)
            + " records"@,
{
}

/// The selected row of a list is marked, and shows its key, its name and what it
/// does.
pub proof fn law_list_rows_show_their_items(item: ItemView, selected: bool, column: int, width: int)
    ensures
        ({
            let shown = dialog::item_row(item, selected, column, width);
            &&& selected ==> shown[0].0 == "> "@
            &&& !selected ==> shown[0].0 == "  "@
            &&& item.shortcut is Some ==> shown[1].0 == fit::padded_right(
                item.shortcut->0,
                column,
            )
            &&& shown[3].0 == fit::cell(item.label, dialog::label_column(column, width))
        }),
{
}

/// The foot of the screen has as much help as there is room for.
pub proof fn law_help_has_its_room(width: int)
    ensures
        width >= 120 ==> status::help_for(width) == HelpVariant::Full,
        80 <= width < 120 ==> status::help_for(width) == HelpVariant::Compact,
        48 <= width < 80 ==> status::help_for(width) == HelpVariant::Essential,
        width < 48 ==> status::help_for(width) == HelpVariant::Hidden,
        status::help_items(HelpVariant::Hidden).len() == 0,
        status::help_items(HelpVariant::Essential) == seq![
            ("q"@, "quit"@),
            ("?"@, "commands"@),
        ],
{
}

/// The conditions on properties are told one after the other, those that show first.
pub proof fn law_conditions_are_told_in_the_foot(filters: FilterView, i: int)
    ensures
        ({
            let texts = status::condition_texts(filters);
            let shown = filters.includes.len();
            &&& texts.len() == shown + filters.excludes.len()
            &&& 0 <= i < shown ==> texts[i] == filters.includes[i].summary(false)
            &&& 0 <= i < filters.excludes.len() ==> texts[shown + i] == filters.excludes[i].summary(
                true,
            )
            &&& texts.len() > 0 ==> status::conditions_text(filters) == split::join(texts, ","@)
            &&& texts.len() == 0 ==> status::conditions_text(filters) == "-"@
        }),
{
}

/// A condition is told as it is typed.
pub proof fn law_conditions_are_told_as_typed(key: Seq<char>, value: Seq<char>)
    ensures
        (filter::PredicateView { key, value: Some(value) }).summary(false) == key + "="@ + value,
        (filter::PredicateView { key, value: Some(value) }).summary(true) == key + "!="@ + value,
        (filter::PredicateView { key, value: None }).summary(false) == key,
        (filter::PredicateView { key, value: None }).summary(true) == "!"@ + key,
{
}

/// Of all the texts that are sought the one that stands first is highlighted first,
/// and of those that stand at one place the longest.
pub proof fn law_first_and_longest_text_is_highlighted(
    s: Seq<char>,
    values: Seq<Seq<char>>,
    i: int,
    at: int,
)
    requires
        0 <= i < values.len(),
        row::highlight_from(s, values[i], 0) == Some(at),
    ensures
        match row::first_highlight(s, values) {
            Some((place, value)) => place <= at && (place == at ==> value.len()
                >= values[i].len()),
            None => false,
        },
    decreases values.len(),
{
    if i < values.len() - 1 {
        law_first_and_longest_text_is_highlighted(s, values.drop_last(), i, at);
    }
}

/// A sign that stands between letters is not highlighted on its own.
pub proof fn law_signs_within_words_are_not_highlighted(s: Seq<char>, at: int, value: Seq<char>)
    requires
        0 <= at,
        at + value.len() <= s.len(),
        forall|i: int| 0 <= i < value.len() ==> !text::is_alphanumeric(#[trigger] value[i]),
    ensures
        at > 0 && text::is_alphanumeric(s[at - 1]) ==> !row::may_highlight(s, at, value),
        at + value.len() < s.len() && text::is_alphanumeric(s[at + value.len()])
            ==> !row::may_highlight(s, at, value),
        (at == 0 || !text::is_alphanumeric(s[at - 1])) && (at + value.len() == s.len()
            || !text::is_alphanumeric(s[at + value.len()])) ==> row::may_highlight(s, at, value),
{
}

/// A dialog is in the middle of the screen, as large as it may be and no larger than
/// the screen.
pub proof fn law_dialogs_are_in_the_middle(area: dialog::Area, width: int, height: int)
    requires
        area.on_screen(),
        0 <= width <= area.width,
        0 <= height <= area.height,
    ensures
        ({
            let middle = dialog::centered(area, width, height);
            let left = middle.x - area.x;
            let right = area.x + area.width - middle.x - middle.width;
            let above = middle.y - area.y;
            let below = area.y + area.height - middle.y - middle.height;
            &&& middle.width == width && middle.height == height
            &&& left == right || left + 1 == right
            &&& above == below || above + 1 == below
        }),
        dialog::bounded(width, 32, 82) == if width <= 82 {
            width
        } else {
            82
        },
{
}

/// The first line of a row is what its event begins with, the first line of the
/// message and the columns; the other lines have blanks in place of both.
pub proof fn law_rows_are_prefix_message_and_columns(
    event: EventView,
    color: bool,
    marked: bool,
    columns: Seq<ColumnView>,
    values: Seq<Seq<char>>,
    room: int,
    line: Seq<char>,
    index: int,
)
    requires
        columns.len() == 0,
    ensures
        row::row_line(event, color, marked, columns, values, room, line, 0) == row::row_prefix(
            event,
            color,
            marked,
        ) + row::message_parts(line, values),
        index > 0 ==> row::row_line(event, color, marked, columns, values, room, line, index)
            == seq![SpanView { text: fit::spaces(31), role: SpanRole::Text }]
            + row::message_parts(line, values),
{
    let none = Seq::<SpanView>::empty();
    assert(row::value_cells(event, columns) =~= none);
    assert(row::blank_cells(columns) =~= none);
    let first = row::row_prefix(event, color, marked) + row::message_parts(line, values);
    assert(first + none =~= first);
    let other = seq![SpanView { text: fit::spaces(31), role: SpanRole::Text }]
        + row::message_parts(line, values);
    assert(other + none =~= other);
}

/// A pinned column is as wide as it says, with a blank before it, in every row.
pub proof fn law_columns_are_as_wide_as_they_say(
    event: EventView,
    columns: Seq<ColumnView>,
    i: int,
)
    requires
        0 <= i < columns.len(),
        columns[i].width >= 0,
    ensures
        row::value_cells(event, columns)[i].text == seq![' '] + fit::cell(
            row::column_value(event, columns[i].key),
            columns[i].width,
        ),
        row::header_cells(columns)[i].text == seq![' '] + fit::cell(
            columns[i].key,
            columns[i].width,
        ),
        row::blank_cells(columns)[i].text == seq![' '] + fit::spaces(columns[i].width),
{
    reveal_strlit(" ");
    assert(" "@ =~= seq![' ']);
}

/// A text with a letter or a number in it is highlighted wherever it stands.
pub proof fn law_words_are_highlighted_anywhere(
    s: Seq<char>,
    at: int,
    value: Seq<char>,
    i: int,
)
    requires
        0 <= i < value.len(),
        text::is_alphanumeric(value[i]),
    ensures
        row::may_highlight(s, at, value),
{
}

/// The details of an event have a line for each of its properties, below two lines
/// of what the event is, where there is room for all of them.
pub proof fn law_details_list_the_properties(
    event: EventView,
    selected: int,
    width: int,
    height: int,
    i: int,
)
    requires
        0 <= selected < event.properties.len(),
        event.properties.len() + 2 <= height,
        0 <= i < event.properties.len(),
        width >= 2,
    ensures
        ({
            let lines = screen::details_lines(event, selected, width, height);
            &&& lines.len() == event.properties.len() + 2
            &&& lines[0] == screen::details_head(event, width - 2)[0]
            &&& lines[1] == screen::details_head(event, width - 2)[1]
            &&& lines[i + 2] == screen::property_line(
                event.properties[i],
                i == selected,
                width - 2,
            )
        }),
{
}

/// The details of an event without properties say so.
pub proof fn law_details_without_properties(event: EventView, width: int, height: int)
    requires
        event.properties.len() == 0,
    ensures
        screen::details_lines(event, 0, width, height).len() == 3,
        screen::details_lines(event, 0, width, height)[2] == seq![
            status::base_part(" no properties"@),
        ],
{
}

/// A page is told with its number, which is kept whole where there is room for it.
pub proof fn law_page_is_told(id: Seq<char>, width: int)
    requires
        id.len() + 5 <= width,
        width > 5,
    ensures
        screen::page_label(id, width) == seq![' ', 'i', 'd', '='] + id + seq![' '],
{
    reveal_strlit(" id=");
    reveal_strlit(" ");
    law_cut_text_keeps_its_beginning(id, width - 5);
    assert(" id="@ =~= seq![' ', 'i', 'd', '=']);
    assert(" "@ =~= seq![' ']);
}

/// A dialog has a row for each thing it lists, in the same order, and one row that
/// says so where it lists none.
pub proof fn law_dialogs_list_their_rows(app: AppView, i: int)
    ensures
        ({
            let rows = app.property_rows(text::trim(app.list(DialogKind::PropertyFilters).query));
            let shown = screen::dialog_rows(app, DialogKind::PropertyFilters);
            &&& rows.len() == 0 ==> shown.len() == 1 && shown[0].label == "No property filters"@
            &&& rows.len() > 0 ==> shown.len() == rows.len()
            &&& 0 <= i < rows.len() ==> shown[i].shortcut == Some(rows[i].kind)
                && shown[i].label == rows[i].summary
        }),
        ({
            let rows = state::keys_matching(
                app.field_rows,
                text::trim(app.list(DialogKind::MessageFields).query),
            );
            let shown = screen::dialog_rows(app, DialogKind::MessageFields);
            &&& rows.len() == 0 ==> shown.len() == 1 && shown[0].label == "No pinned fields"@
            &&& rows.len() > 0 ==> shown.len() == rows.len()
            &&& 0 <= i < rows.len() ==> shown[i].label == rows[i]
        }),
        ({
            let rows = app.preset_rows(text::trim(app.list(DialogKind::FilterPresets).query));
            let shown = screen::dialog_rows(app, DialogKind::FilterPresets);
            &&& rows.len() == 0 ==> shown.len() == 1 && shown[0].label == "No filter presets"@
            &&& rows.len() > 0 ==> shown.len() == rows.len()
            &&& 0 <= i < rows.len() ==> shown[i].label == rows[i].name && shown[i].description
                == rows[i].summary
        }),
        ({
            let rows = app.source_rows(text::trim(app.list(DialogKind::Sources).query));
            let shown = screen::dialog_rows(app, DialogKind::Sources);
            &&& rows.len() == 0 ==> shown.len() == 1 && shown[0].label == "No sources"@
            &&& rows.len() > 0 ==> shown.len() == rows.len()
            &&& 0 <= i < rows.len() ==> shown[i].label == rows[i].source
        }),
        ({
            let rows = facets::rows_matching(
                app.active_facet_rows(),
                text::trim(app.list(DialogKind::Facets).query),
            );
            let shown = screen::dialog_rows(app, DialogKind::Facets);
            &&& rows.len() == 0 ==> shown.len() == 1 && shown[0].label == "No facets"@
            &&& rows.len() > 0 ==> shown.len() == rows.len()
            &&& 0 <= i < rows.len() ==> shown[i] == screen::facet_item(rows[i])
        }),
{
}

/// The row of a command shows its key, its name and what it does.
pub proof fn law_commands_are_listed(commands: Seq<CommandView>, i: int)
    requires
        0 <= i < commands.len(),
    ensures
        dialog::items_of(commands).len() == commands.len(),
        dialog::items_of(commands)[i].shortcut == Some(commands[i].shortcut),
        dialog::items_of(commands)[i].label == commands[i].label,
        dialog::items_of(commands)[i].description == commands[i].description,
{
}

/// The column of keys has room for every key of up to ten characters, and no more
/// room than the longest key needs.
pub proof fn law_keys_have_their_column(items: Seq<ItemView>)
    ensures
        0 <= dialog::shortcut_column(items) <= 10,
        forall|i: int|
            0 <= i < items.len() && (#[trigger] items[i]).shortcut is Some
                && items[i].shortcut->0.len() <= 10 ==> items[i].shortcut->0.len()
                <= dialog::shortcut_column(items),
        dialog::shortcut_column(items) > 0 ==> exists|i: int|
            0 <= i < items.len() && (#[trigger] items[i]).shortcut is Some
                && items[i].shortcut->0.len() >= dialog::shortcut_column(items),
{
    lemma_longest_key(items);
}

proof fn lemma_longest_key(items: Seq<ItemView>)
    ensures
        0 <= dialog::longest_shortcut(items),
        forall|i: int|
            0 <= i < items.len() && (#[trigger] items[i]).shortcut is Some
                ==> items[i].shortcut->0.len() <= dialog::longest_shortcut(items),
        dialog::longest_shortcut(items) > 0 ==> exists|i: int|
            0 <= i < items.len() && (#[trigger] items[i]).shortcut is Some
                && items[i].shortcut->0.len() == dialog::longest_shortcut(items),
    decreases items.len(),
{
    if items.len() > 0 {
        let front = items.drop_last();
        lemma_longest_key(front);
        assert forall|i: int| 0 <= i < items.len() && (#[trigger] items[i]).shortcut is Some implies
            items[i].shortcut->0.len() <= dialog::longest_shortcut(items) by {
            if i < front.len() {
                assert(front[i] == items[i]);
            }
        }
        let longest = dialog::longest_shortcut(items);
        if longest > 0 {
            if longest == dialog::longest_shortcut(front) {
                let k = choose|k: int|
                    0 <= k < front.len() && (#[trigger] front[k]).shortcut is Some
                        && front[k].shortcut->0.len() == longest;
                assert(items[k] == front[k]);
            } else {
                assert(items[items.len() - 1].shortcut is Some);
            }
        }
    }
}

/// A list has a row for each of its items, and the selected one alone is marked.
pub proof fn law_one_row_is_marked(items: Seq<ItemView>, selected: int, width: int, i: int)
    requires
        0 <= i < items.len(),
    ensures
        ({
            let rows = dialog::item_rows(items, selected, width);
            &&& rows.len() == items.len()
            &&& i == selected ==> rows[i][0].0 == "> "@
            &&& i != selected ==> rows[i][0].0 == "  "@
            &&& rows[i][3].0 == fit::cell(
                items[i].label,
                dialog::label_column(dialog::shortcut_column(items), width),
            )
        }),
{
}

/// What an item does is told in the room that its key and its name leave, between
/// blanks.
pub proof fn law_items_are_described_in_the_rest(
    item: ItemView,
    selected: bool,
    column: int,
    width: int,
)
    requires
        0 <= column <= 10,
        width >= column + 31,
    ensures
        dialog::label_column(column, width) == 24,
        dialog::item_row(item, selected, column, width).len() == 6,
        dialog::item_row(item, selected, column, width)[5].0 == fit::cut(
            item.description,
            width - column - 30,
        ),
{
}

/// The head of the rows names what each part of a row is, and the pinned columns
/// after them.
pub proof fn law_head_names_the_columns(columns: Seq<ColumnView>, width: int, i: int)
    requires
        0 <= i < columns.len(),
    ensures
        ({
            let head = row::header_row(columns, width);
            &&& head[1].text == fit::padded_right("service"@, 14)
            &&& head[3].text == fit::padded_right("level"@, 7)
            &&& head[5].text == "message"@
            &&& head[head.len() - columns.len() + i] == row::header_cells(columns)[i]
        }),
{
}

/// An event is shown on as many lines as its message is broken into.
pub proof fn law_rows_have_a_line_for_each_part(
    event: EventView,
    color: bool,
    marked: bool,
    columns: Seq<ColumnView>,
    values: Seq<Seq<char>>,
    width: int,
    max_lines: int,
    i: int,
)
    ensures
        ({
            let room = row::room_for_message(width, columns);
            let parts = row::wrapped(fit::compact(event.message), room, max_lines);
            let lines = row::row_of(event, color, marked, columns, values, width, max_lines);
            &&& lines.len() == parts.len()
            &&& 0 <= i < parts.len() ==> lines[i] == row::row_line(
                event,
                color,
                marked,
                columns,
                values,
                room,
                parts[i],
                i,
            )
        }),
{
}

} // verus!
