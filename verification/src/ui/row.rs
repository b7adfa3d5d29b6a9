//! Events as rows.
use crate::model::{self, EventView, Level, LogEvent};
use crate::text;
use crate::text::bytes;
use crate::text::number::{self, decimal_string};
use crate::text::{
    char_is_alphanumeric, char_is_space, chars_of, chars_same, chars_skip, chars_take, concat,
    copy_str, string_of,
};
use crate::ui::text::{self as fit, blank, compact_whitespace, pad_left, pad_right, padded_cell};
use vstd::prelude::*;
use vstd::slice::slice_subrange;

verus! {

broadcast use text::lemma_views_push;

/// How wide a row is before its message.
pub const BASE_PREFIX_WIDTH: usize = 31;

/// How many colors there are for sources.
pub const SOURCE_COLORS: usize = 8;

/// What a part of a row stands for.
#[derive(Debug, Clone, Copy, PartialEq, Eq, Structural)]
pub enum SpanRole {
    Header,
    Rail,
    LineNumber,
    Source(usize),
    Level(Level),
    Text,
    Highlight,
}

/// A part of a row.
#[derive(Debug, PartialEq, Eq)]
pub struct RowSpan {
    pub text: String,
    pub role: SpanRole,
}

/// What a part of a row is.
pub struct SpanView {
    pub text: Seq<char>,
    pub role: SpanRole,
}

impl View for RowSpan {
    type V = SpanView;

    open spec fn view(&self) -> SpanView {
        SpanView { text: self.text@, role: self.role }
    }
}

/// A property that has a column of its own.
#[derive(Debug, PartialEq, Eq)]
pub struct DisplayFieldColumn {
    pub key: String,
    pub width: usize,
}

/// What a column is.
pub struct ColumnView {
    pub key: Seq<char>,
    pub width: int,
}

impl View for DisplayFieldColumn {
    type V = ColumnView;

    open spec fn view(&self) -> ColumnView {
        ColumnView { key: self.key@, width: self.width as int }
    }
}

// ---------------------------------------------------------------------------
// Columns
// ---------------------------------------------------------------------------

/// How wide columns are, with a space before each.
pub open spec fn columns_width(columns: Seq<ColumnView>) -> int
    decreases columns.len(),
{
    if columns.len() == 0 {
        0
    } else {
        columns_width(columns.drop_last()) + 1 + columns.last().width
    }
}

/// How wide a message may be.
pub open spec fn room_for_message(width: int, columns: Seq<ColumnView>) -> int {
    let room = width - BASE_PREFIX_WIDTH - columns_width(columns);
    if room < 1 {
        1
    } else {
        room
    }
}

fn message_width(width: usize, columns: &[DisplayFieldColumn]) -> (result: usize)
    ensures
        result == room_for_message(width as int, text::views(columns@)),
{
    let ghost all = text::views(columns@);
    let mut used: usize = BASE_PREFIX_WIDTH;
    let mut i: usize = 0;
    assert(all.take(0) =~= Seq::<ColumnView>::empty());
    while i < columns.len()
        invariant
            i <= columns@.len(),
            all == text::views(columns@),
            columns_width(all.take(i as int)) >= 0,
            used == BASE_PREFIX_WIDTH + columns_width(all.take(i as int)) || (used == usize::MAX
                && BASE_PREFIX_WIDTH + columns_width(all.take(i as int)) >= usize::MAX),
        decreases columns@.len() - i,
    {
        assert(all.take(i + 1).drop_last() =~= all.take(i as int));
        used = used.saturating_add(1).saturating_add(columns[i].width);
        i += 1;
    }
    assert(all.take(i as int) =~= all);
    let room = width.saturating_sub(used);
    if room < 1 {
        1
    } else {
        room
    }
}

/// The names of columns.
pub open spec fn header_cells(columns: Seq<ColumnView>) -> Seq<SpanView> {
    Seq::new(
        columns.len(),
        |i: int|
            SpanView {
                text: " "@ + fit::cell(columns[i].key, columns[i].width),
                role: SpanRole::Header,
            },
    )
}

/// The value of an event in a column.
pub open spec fn column_value(event: EventView, key: Seq<char>) -> Seq<char> {
    match model::property_value(event.properties, key) {
        Some(value) => value.display(),
        None => "-"@,
    }
}

/// The values of an event in columns.
pub open spec fn value_cells(event: EventView, columns: Seq<ColumnView>) -> Seq<SpanView> {
    Seq::new(
        columns.len(),
        |i: int|
            SpanView {
                text: " "@ + fit::cell(column_value(event, columns[i].key), columns[i].width),
                role: SpanRole::Text,
            },
    )
}

/// Columns without values.
pub open spec fn blank_cells(columns: Seq<ColumnView>) -> Seq<SpanView> {
    Seq::new(
        columns.len(),
        |i: int|
            SpanView { text: " "@ + fit::spaces(columns[i].width), role: SpanRole::Text },
    )
}

fn push_header_cells(spans: &mut Vec<RowSpan>, columns: &[DisplayFieldColumn])
    ensures
        text::views(final(spans)@) == text::views(old(spans)@) + header_cells(
            text::views(columns@),
        ),
{
    let ghost before = text::views(spans@);
    let ghost cells = header_cells(text::views(columns@));
    let mut i: usize = 0;
    assert(before + cells.take(0) =~= before);
    while i < columns.len()
        invariant
            i <= columns@.len(),
            cells == header_cells(text::views(columns@)),
            text::views(spans@) == before + cells.take(i as int),
        decreases columns@.len() - i,
    {
        let cell = padded_cell(columns[i].key.as_str(), columns[i].width);
        spans.push(RowSpan { text: concat(" ", cell.as_str()), role: SpanRole::Header });
        assert(before + cells.take(i + 1) =~= (before + cells.take(i as int)).push(
            cells[i as int],
        ));
        i += 1;
    }
    assert(cells.take(i as int) =~= cells);
}

fn push_value_cells(spans: &mut Vec<RowSpan>, event: &LogEvent, columns: &[DisplayFieldColumn])
    ensures
        text::views(final(spans)@) == text::views(old(spans)@) + value_cells(
            event@,
            text::views(columns@),
        ),
{
    let ghost before = text::views(spans@);
    let ghost cells = value_cells(event@, text::views(columns@));
    let mut i: usize = 0;
    assert(before + cells.take(0) =~= before);
    while i < columns.len()
        invariant
            i <= columns@.len(),
            cells == value_cells(event@, text::views(columns@)),
            text::views(spans@) == before + cells.take(i as int),
        decreases columns@.len() - i,
    {
        let value = match event.property(columns[i].key.as_str()) {
            Some(property) => property.value.as_display_str(),
            None => "-",
        };
        let cell = padded_cell(value, columns[i].width);
        spans.push(RowSpan { text: concat(" ", cell.as_str()), role: SpanRole::Text });
        assert(before + cells.take(i + 1) =~= (before + cells.take(i as int)).push(
            cells[i as int],
        ));
        i += 1;
    }
    assert(cells.take(i as int) =~= cells);
}

fn push_blank_cells(spans: &mut Vec<RowSpan>, columns: &[DisplayFieldColumn])
    ensures
        text::views(final(spans)@) == text::views(old(spans)@) + blank_cells(
            text::views(columns@),
        ),
{
    let ghost before = text::views(spans@);
    let ghost cells = blank_cells(text::views(columns@));
    let mut i: usize = 0;
    assert(before + cells.take(0) =~= before);
    while i < columns.len()
        invariant
            i <= columns@.len(),
            cells == blank_cells(text::views(columns@)),
            text::views(spans@) == before + cells.take(i as int),
        decreases columns@.len() - i,
    {
        let cell = blank(columns[i].width);
        spans.push(RowSpan { text: concat(" ", cell.as_str()), role: SpanRole::Text });
        assert(before + cells.take(i + 1) =~= (before + cells.take(i as int)).push(
            cells[i as int],
        ));
        i += 1;
    }
    assert(cells.take(i as int) =~= cells);
}

// ---------------------------------------------------------------------------
// Wrapping
// ---------------------------------------------------------------------------

/// The first character from an index on that is no space, or the end.
pub open spec fn skip_spaces(s: Seq<char>, from: int) -> int
    decreases s.len() - from,
{
    if from < 0 || from >= s.len() || !text::is_space(s[from]) {
        from
    } else {
        skip_spaces(s, from + 1)
    }
}

/// The last space within a range; none where there is none.
pub open spec fn last_space(s: Seq<char>, from: int, to: int) -> Option<int>
    decreases to - from,
{
    if to <= from {
        None
    } else if text::is_space(s[to - 1]) {
        Some(to - 1)
    } else {
        last_space(s, from, to - 1)
    }
}

/// A line that is cut, with a mark in place of its end.
pub open spec fn marked(line: Seq<char>, width: int) -> Seq<char> {
    if width <= 0 {
        Seq::empty()
    } else if line.len() < width {
        line.push('~')
    } else {
        line.take(width - 1).push('~')
    }
}

/// The lines of a message from a character on: broken at the last space that
/// leaves them narrow enough, or where there is none at the full width. The
/// last of as many lines as there may be tells whether it was cut.
pub open spec fn wrapped_from(s: Seq<char>, from: int, width: int, max_lines: int) -> Seq<Seq<char>>
    decreases max_lines,
{
    let start = skip_spaces(s, from);
    if max_lines <= 0 || width <= 0 || start < 0 || start >= s.len() {
        Seq::empty()
    } else if start + width >= s.len() {
        seq![s.skip(start)]
    } else {
        let space = last_space(s, start, start + width);
        let end = match space {
            Some(at) => at,
            None => start + width,
        };
        let next = match space {
            Some(at) => at + 1,
            None => start + width,
        };
        let line = s.subrange(start, end);
        let shown = if max_lines == 1 && skip_spaces(s, next) < s.len() {
            marked(line, width)
        } else {
            line
        };
        seq![shown] + wrapped_from(s, next, width, max_lines - 1)
    }
}

/// The lines of a message. There is always one, where there may be any.
pub open spec fn wrapped(s: Seq<char>, width: int, max_lines: int) -> Seq<Seq<char>> {
    if max_lines <= 0 {
        Seq::empty()
    } else if wrapped_from(s, 0, width, max_lines).len() == 0 {
        seq![Seq::empty()]
    } else {
        wrapped_from(s, 0, width, max_lines)
    }
}

fn find_text(chars: &[char], from: usize) -> (result: usize)
    requires
        from <= chars@.len(),
    ensures
        result == skip_spaces(chars@, from as int),
        from <= result <= chars@.len(),
        result < chars@.len() ==> !text::is_space(chars@[result as int]),
{
    let mut i: usize = from;
    while i < chars.len() && char_is_space(chars[i])
        invariant
            from <= i <= chars@.len(),
            skip_spaces(chars@, from as int) == skip_spaces(chars@, i as int),
        decreases chars@.len() - i,
    {
        i += 1;
    }
    i
}

fn find_last_space(chars: &[char], from: usize, to: usize) -> (result: Option<usize>)
    requires
        from <= to <= chars@.len(),
    ensures
        match result {
            Some(at) => last_space(chars@, from as int, to as int) == Some(at as int) && from <= at
                < to && text::is_space(chars@[at as int]),
            None => last_space(chars@, from as int, to as int) is None,
        },
{
    let mut end: usize = to;
    while end > from
        invariant
            from <= end <= to <= chars@.len(),
            last_space(chars@, from as int, to as int) == last_space(
                chars@,
                from as int,
                end as int,
            ),
        decreases end,
    {
        if char_is_space(chars[end - 1]) {
            return Some(end - 1);
        }
        end -= 1;
    }
    None
}

fn mark_truncated(line: &[char], width: usize) -> (result: Vec<char>)
    ensures
        result@ == marked(line@, width as int),
{
    let mut out: Vec<char> = Vec::new();
    if width == 0 {
        assert(out@ =~= Seq::<char>::empty());
        return out;
    }
    if line.len() < width {
        text::push_chars(&mut out, line);
        assert(out@ =~= line@);
    } else {
        text::push_chars(&mut out, chars_take(line, width - 1));
        assert(out@ =~= line@.take(width - 1));
    }
    out.push('~');
    out
}

/// Breaks a message into lines.
pub fn wrap_message(message: &str, width: usize, max_lines: usize) -> (result: Vec<String>)
    ensures
        text::views(result@) == wrapped(message@, width as int, max_lines as int),
{
    let mut lines: Vec<String> = Vec::new();
    if max_lines == 0 {
        assert(text::views(lines@) =~= Seq::<Seq<char>>::empty());
        return lines;
    }
    let chars = chars_of(message);
    let ghost s = message@;
    let ghost all = wrapped_from(s, 0, width as int, max_lines as int);
    let mut start: usize = 0;
    let mut left: usize = max_lines;
    assert(text::views(lines@) =~= Seq::<Seq<char>>::empty());
    assert(Seq::<Seq<char>>::empty() + all =~= all);
    if width > 0 {
        loop
            invariant_except_break
                chars@ == s,
                width > 0,
                start <= chars@.len(),
                all == text::views(lines@) + wrapped_from(
                    s,
                    start as int,
                    width as int,
                    left as int,
                ),
            ensures
                text::views(lines@) == all,
            decreases left,
        {
            if left == 0 {
                assert(text::views(lines@) =~= all);
                break ;
            }
            let from = find_text(chars.as_slice(), start);
            if from >= chars.len() {
                assert(text::views(lines@) =~= all);
                break ;
            }
            if chars.len() - from <= width {
                lines.push(string_of(chars_skip(chars.as_slice(), from)));
                assert(text::views(lines@) =~= all);
                break ;
            }
            let space = find_last_space(chars.as_slice(), from, from + width);
            let (end, next) = match space {
                Some(at) => (at, at + 1),
                None => (from + width, from + width),
            };
            let line = slice_subrange(chars.as_slice(), from, end);
            let more = find_text(chars.as_slice(), next) < chars.len();
            let ghost before = text::views(lines@);
            if left == 1 && more {
                lines.push(string_of(mark_truncated(line, width).as_slice()));
            } else {
                lines.push(string_of(line));
            }
            proof {
                let shown = text::views(lines@).last();
                let rest = wrapped_from(s, next as int, width as int, left - 1);
                assert(text::views(lines@) =~= before.push(shown));
                assert(before + (seq![shown] + rest) =~= before.push(shown) + rest);
            }
            left -= 1;
            start = next;
        }
    } else {
        assert(text::views(lines@) =~= all);
    }
    assert(text::views(lines@).len() == lines@.len());
    if lines.len() == 0 {
        lines.push(String::new());
        assert(text::views(lines@) =~= seq![Seq::<char>::empty()]);
    }
    lines
}

/// How many lines an event takes.
pub open spec fn height_of(
    event: EventView,
    width: int,
    columns: Seq<ColumnView>,
    max_lines: int,
) -> int {
    wrapped(fit::compact(event.message), room_for_message(width, columns), max_lines).len() as int
}

/// How many lines an event takes.
pub fn event_height(
    event: &LogEvent,
    width: usize,
    columns: &[DisplayFieldColumn],
    max_lines: usize,
) -> (result: usize)
    ensures
        result == height_of(
            event@,
            width as int,
            text::views(columns@),
            max_lines as int,
        ),
{
    let room = message_width(width, columns);
    let message = compact_whitespace(event.message.as_str());
    let lines = wrap_message(message.as_str(), room, max_lines);
    assert(text::views(lines@).len() == lines@.len());
    lines.len()
}

// ---------------------------------------------------------------------------
// Highlighting
// ---------------------------------------------------------------------------

/// Whether a text stands at an index of another one.
pub open spec fn stands_at(s: Seq<char>, value: Seq<char>, at: int) -> bool {
    0 <= at && at + value.len() <= s.len() && s.subrange(at, at + value.len()) == value
}

/// The first place, from an index on, at which a text stands.
pub open spec fn place_from(s: Seq<char>, value: Seq<char>, from: int) -> Option<int>
    decreases s.len() + 1 - from,
{
    if from < 0 || from + value.len() > s.len() {
        None
    } else if stands_at(s, value, from) {
        Some(from)
    } else {
        place_from(s, value, from + 1)
    }
}

/// Whether a text has a letter or a number in it.
pub open spec fn has_alphanumeric(value: Seq<char>) -> bool {
    exists|i: int| 0 <= i < value.len() && text::is_alphanumeric(#[trigger] value[i])
}

/// Whether a text may be highlighted where it stands: one of signs alone only
/// where no letter or number is next to it.
pub open spec fn may_highlight(s: Seq<char>, at: int, value: Seq<char>) -> bool {
    let end = at + value.len();
    has_alphanumeric(value) || (!(at > 0 && text::is_alphanumeric(s[at - 1])) && !(end < s.len()
        && text::is_alphanumeric(s[end])))
}

/// The first place at which a text may be highlighted, of those that do not
/// overlap, from an index on.
pub open spec fn highlight_from(s: Seq<char>, value: Seq<char>, from: int) -> Option<int>
    decreases s.len() - from,
{
    if value.len() == 0 || from < 0 || from > s.len() {
        None
    } else {
        match place_from(s, value, from) {
            None => None,
            Some(at) => {
                proof {
                    lemma_place_from(s, value, from);
                }
                if may_highlight(s, at, value) {
                    Some(at)
                } else {
                    highlight_from(s, value, at + value.len())
                }
            },
        }
    }
}

/// Whether a place comes before another: it is further left, or its text is
/// longer.
pub open spec fn comes_before(a: (int, Seq<char>), b: (int, Seq<char>)) -> bool {
    a.0 < b.0 || (a.0 == b.0 && a.1.len() > b.1.len())
}

/// The first place at which one of some texts may be highlighted, and the
/// longest text that may be there.
pub open spec fn first_highlight(s: Seq<char>, values: Seq<Seq<char>>) -> Option<(int, Seq<char>)>
    decreases values.len(),
{
    if values.len() == 0 {
        None
    } else {
        let best = first_highlight(s, values.drop_last());
        match (best, highlight_from(s, values.last(), 0)) {
            (best, None) => best,
            (None, Some(at)) => Some((at, values.last())),
            (Some(best), Some(at)) => if comes_before((at, values.last()), best) {
                Some((at, values.last()))
            } else {
                Some(best)
            },
        }
    }
}

/// A text stands at its first place.
pub proof fn lemma_place_from(s: Seq<char>, value: Seq<char>, from: int)
    ensures
        match place_from(s, value, from) {
            Some(at) => from <= at && stands_at(s, value, at),
            None => true,
        },
    decreases s.len() + 1 - from,
{
    if 0 <= from && from + value.len() <= s.len() && !stands_at(s, value, from) {
        lemma_place_from(s, value, from + 1);
    }
}

/// A place for highlighting is one where the text stands.
pub proof fn lemma_highlight_from(s: Seq<char>, value: Seq<char>, from: int)
    ensures
        match highlight_from(s, value, from) {
            Some(at) => value.len() > 0 && stands_at(s, value, at),
            None => true,
        },
    decreases s.len() - from,
{
    lemma_place_from(s, value, from);
    if value.len() > 0 && 0 <= from <= s.len() {
        match place_from(s, value, from) {
            Some(at) => {
                if !may_highlight(s, at, value) {
                    lemma_highlight_from(s, value, at + value.len());
                }
            },
            None => {},
        }
    }
}

/// The first place for highlighting is one where its text stands.
pub proof fn lemma_first_highlight(s: Seq<char>, values: Seq<Seq<char>>)
    ensures
        match first_highlight(s, values) {
            Some((at, value)) => value.len() > 0 && stands_at(s, value, at) && values.contains(
                value,
            ),
            None => true,
        },
    decreases values.len(),
{
    if values.len() > 0 {
        let front = values.drop_last();
        lemma_first_highlight(s, front);
        lemma_highlight_from(s, values.last(), 0);
        assert(values[values.len() - 1] == values.last());
        match first_highlight(s, front) {
            Some((_, value)) => {
                let i = choose|i: int| 0 <= i < front.len() && front[i] == value;
                assert(values[i] == value);
            },
            None => {},
        }
    }
}

/// The parts of a message, the highlighted ones apart.
pub open spec fn highlighted(s: Seq<char>, values: Seq<Seq<char>>) -> Seq<SpanView>
    decreases s.len(),
{
    if s.len() == 0 {
        Seq::empty()
    } else {
        match first_highlight(s, values) {
            None => seq![SpanView { text: s, role: SpanRole::Text }],
            Some((at, value)) => {
                proof {
                    lemma_first_highlight(s, values);
                }
                let plain = if at > 0 {
                    seq![SpanView { text: s.take(at), role: SpanRole::Text }]
                } else {
                    Seq::empty()
                };
                plain + seq![SpanView { text: value, role: SpanRole::Highlight }] + highlighted(
                    s.skip(at + value.len()),
                    values,
                )
            },
        }
    }
}

/// The parts of a message.
pub open spec fn message_parts(s: Seq<char>, values: Seq<Seq<char>>) -> Seq<SpanView> {
    if forall|i: int| 0 <= i < values.len() ==> (#[trigger] values[i]).len() == 0 {
        seq![SpanView { text: s, role: SpanRole::Text }]
    } else {
        highlighted(s, values)
    }
}

fn find_place(chars: &[char], value: &[char], from: usize) -> (result: Option<usize>)
    requires
        from <= chars@.len(),
    ensures
        match result {
            Some(at) => place_from(chars@, value@, from as int) == Some(at as int) && from <= at
                && at + value@.len() <= chars@.len(),
            None => place_from(chars@, value@, from as int) is None,
        },
{
    if value.len() == 0 {
        assert(chars@.subrange(from as int, from as int) =~= value@);
        return Some(from);
    }
    let mut i: usize = from;
    while value.len() <= chars.len() - i
        invariant
            value@.len() > 0,
            from <= i <= chars@.len(),
            place_from(chars@, value@, from as int) == place_from(chars@, value@, i as int),
        decreases chars@.len() - i,
    {
        if chars_same(slice_subrange(chars, i, i + value.len()), value) {
            return Some(i);
        }
        i += 1;
    }
    None
}

fn has_letter_or_number(value: &[char]) -> (result: bool)
    ensures
        result == has_alphanumeric(value@),
{
    let mut i: usize = 0;
    while i < value.len()
        invariant
            i <= value@.len(),
            forall|j: int| 0 <= j < i ==> !text::is_alphanumeric(#[trigger] value@[j]),
        decreases value@.len() - i,
    {
        if char_is_alphanumeric(value[i]) {
            assert(text::is_alphanumeric(value@[i as int]));
            return true;
        }
        i += 1;
    }
    false
}

fn highlight_match_allowed(chars: &[char], start: usize, value: &[char]) -> (result: bool)
    requires
        start + value@.len() <= chars@.len(),
    ensures
        result == may_highlight(chars@, start as int, value@),
{
    if has_letter_or_number(value) {
        return true;
    }
    let total: usize = chars.len();
    let end: usize = start + value.len();
    let before = start > 0 && char_is_alphanumeric(chars[start - 1]);
    let after = end < total && char_is_alphanumeric(chars[end]);
    !before && !after
}

fn highlight_match(chars: &[char], value: &[char]) -> (result: Option<usize>)
    ensures
        match result {
            Some(at) => highlight_from(chars@, value@, 0) == Some(at as int) && at + value@.len()
                <= chars@.len(),
            None => highlight_from(chars@, value@, 0) is None,
        },
{
    if value.len() == 0 {
        return None;
    }
    let total: usize = chars.len();
    let mut from: usize = 0;
    loop
        invariant
            value@.len() > 0,
            total == chars@.len(),
            from <= chars@.len(),
            highlight_from(chars@, value@, 0) == highlight_from(chars@, value@, from as int),
        decreases chars@.len() - from,
    {
        match find_place(chars, value, from) {
            None => {
                return None;
            },
            Some(at) => {
                if highlight_match_allowed(chars, at, value) {
                    return Some(at);
                }
                from = at + value.len();
            },
        }
    }
}

fn earliest_match(chars: &[char], values: &Vec<Vec<char>>) -> (result: Option<(usize, usize)>)
    ensures
        match result {
            Some((at, index)) => index < values@.len() && first_highlight(
                chars@,
                char_lists(values@),
            ) == Some((at as int, values@[index as int]@)),
            None => first_highlight(chars@, char_lists(values@)) is None,
        },
{
    let ghost all = char_lists(values@);
    let mut best: Option<(usize, usize)> = None;
    let mut i: usize = 0;
    assert(all.take(0) =~= Seq::<Seq<char>>::empty());
    while i < values.len()
        invariant
            i <= values@.len(),
            all == char_lists(values@),
            match best {
                Some((at, index)) => index < values@.len() && first_highlight(
                    chars@,
                    all.take(i as int),
                ) == Some((at as int, values@[index as int]@)),
                None => first_highlight(chars@, all.take(i as int)) is None,
            },
        decreases values@.len() - i,
    {
        assert(all.take(i + 1).drop_last() =~= all.take(i as int));
        assert(all.take(i + 1).last() == values@[i as int]@);
        match highlight_match(chars, values[i].as_slice()) {
            None => {},
            Some(at) => {
                let better = match best {
                    None => true,
                    Some((place, index)) => at < place || (at == place && values[i].len()
                        > values[index].len()),
                };
                if better {
                    best = Some((at, i));
                }
            },
        }
        i += 1;
    }
    assert(all.take(i as int) =~= all);
    best
}

/// Lists of characters as sequences.
pub open spec fn char_lists(lists: Seq<Vec<char>>) -> Seq<Seq<char>> {
    Seq::new(lists.len(), |i: int| lists[i]@)
}

fn push_span(spans: &mut Vec<RowSpan>, chars: &[char], role: SpanRole)
    ensures
        text::views(final(spans)@) == text::views(old(spans)@).push(
            SpanView { text: chars@, role },
        ),
{
    spans.push(RowSpan { text: string_of(chars), role });
}

/// Appends the parts of a message.
pub fn push_message_spans(spans: &mut Vec<RowSpan>, message: &str, highlight_values: &[&str])
    ensures
        text::views(final(spans)@) == text::views(old(spans)@) + message_parts(
            message@,
            text::views(highlight_values@),
        ),
{
    let ghost values = text::views(highlight_values@);
    let mut lists: Vec<Vec<char>> = Vec::new();
    let mut any: bool = false;
    let mut i: usize = 0;
    while i < highlight_values.len()
        invariant
            i <= highlight_values@.len(),
            values == text::views(highlight_values@),
            lists@.len() == i,
            forall|j: int| 0 <= j < i ==> (#[trigger] lists@[j])@ == values[j],
            any == exists|j: int| 0 <= j < i && (#[trigger] values[j]).len() > 0,
        decreases highlight_values@.len() - i,
    {
        let chars = chars_of(highlight_values[i]);
        assert(chars@ == values[i as int]);
        if chars.len() > 0 {
            any = true;
        }
        lists.push(chars);
        i += 1;
    }
    assert(char_lists(lists@) =~= values);
    let chars = chars_of(message);
    let ghost before = text::views(spans@);
    if !any {
        push_span(spans, chars.as_slice(), SpanRole::Text);
        assert(text::views(spans@) =~= before + seq![
            SpanView { text: message@, role: SpanRole::Text },
        ]);
        return ;
    }
    assert(message_parts(message@, values) == highlighted(message@, values));
    let ghost all = highlighted(message@, values);
    let mut start: usize = 0;
    assert(chars@.skip(0) =~= chars@);
    assert(before + all =~= text::views(spans@) + highlighted(chars@.skip(0), values));
    while start < chars.len()
        invariant
            start <= chars@.len(),
            char_lists(lists@) == values,
            before + all == text::views(spans@) + highlighted(chars@.skip(start as int), values),
        decreases chars@.len() - start,
    {
        let ghost rest = chars@.skip(start as int);
        let ghost done = text::views(spans@);
        let remaining = chars_skip(chars.as_slice(), start);
        proof {
            lemma_first_highlight(rest, values);
        }
        match earliest_match(remaining, &lists) {
            None => {
                push_span(spans, remaining, SpanRole::Text);
                start = chars.len();
                assert(chars@.skip(start as int) =~= Seq::<char>::empty());
                assert(text::views(spans@) + Seq::<SpanView>::empty() =~= before + all);
            },
            Some((at, index)) => {
                let ghost value = lists@[index as int]@;
                if at > 0 {
                    push_span(spans, chars_take(remaining, at), SpanRole::Text);
                }
                push_span(spans, lists[index].as_slice(), SpanRole::Highlight);
                proof {
                    let plain = if at > 0 {
                        seq![SpanView { text: rest.take(at as int), role: SpanRole::Text }]
                    } else {
                        Seq::empty()
                    };
                    let lit = seq![SpanView { text: value, role: SpanRole::Highlight }];
                    let later = highlighted(rest.skip(at + value.len()), values);
                    assert(text::views(spans@) =~= done + plain + lit);
                    assert(rest.skip(at + value.len()) =~= chars@.skip(
                        start + at + value.len(),
                    ));
                    assert(done + (plain + lit + later) =~= (done + plain + lit) + later);
                }
                start = start + at + lists[index].len();
            },
        }
    }
    assert(chars@.skip(start as int) =~= Seq::<char>::empty());
    assert(text::views(spans@) + Seq::<SpanView>::empty() =~= text::views(spans@));
}

// ---------------------------------------------------------------------------
// Rows
// ---------------------------------------------------------------------------

/// A number for the bytes of a source's name.
pub open spec fn name_hash(bytes: Seq<u8>) -> usize
    decreases bytes.len(),
{
    if bytes.len() == 0 {
        0
    } else {
        name_hash(bytes.drop_last()).wrapping_mul(31).wrapping_add(bytes.last() as usize)
    }
}

/// The color of a source.
pub open spec fn color_of(source: Seq<char>) -> usize {
    (name_hash(vstd::utf8::encode_utf8(source)) as int % SOURCE_COLORS as int) as usize
}

/// The color of a source.
pub fn source_color(source: &str) -> (result: usize)
    ensures
        result == color_of(source@),
        result < SOURCE_COLORS,
{
    let bytes = source.as_bytes();
    let mut hash: usize = 0;
    let mut i: usize = 0;
    let ghost all = bytes@;
    assert(all.take(0) =~= Seq::<u8>::empty());
    while i < bytes.len()
        invariant
            i <= bytes@.len(),
            all == bytes@,
            hash == name_hash(all.take(i as int)),
        decreases bytes@.len() - i,
    {
        assert(all.take(i + 1).drop_last() =~= all.take(i as int));
        hash = hash.wrapping_mul(31).wrapping_add(bytes[i] as usize);
        i += 1;
    }
    assert(all.take(i as int) =~= all);
    hash % SOURCE_COLORS
}

/// A message with spaces after it, where columns follow.
pub open spec fn padded_parts(
    s: Seq<char>,
    values: Seq<Seq<char>>,
    width: int,
    pad: bool,
    role: SpanRole,
) -> Seq<SpanView> {
    if pad && s.len() < width {
        message_parts(s, values).push(SpanView { text: fit::spaces(width - s.len()), role })
    } else {
        message_parts(s, values)
    }
}

/// What stands before the message of an event.
pub open spec fn row_prefix(event: EventView, color: bool, is_marked: bool) -> Seq<SpanView> {
    seq![
        SpanView {
            text: if is_marked {
                "*"@
            } else {
                " "@
            },
            role: SpanRole::Rail,
        },
        SpanView {
            text: fit::padded_left(number::decimal(event.sequence as nat), 6) + " "@,
            role: SpanRole::LineNumber,
        },
        SpanView {
            text: fit::cell(event.source, 14),
            role: if color {
                SpanRole::Source(color_of(event.source))
            } else {
                SpanRole::Text
            },
        },
        SpanView { text: " "@, role: SpanRole::Text },
        SpanView {
            text: fit::padded_right(model::level_name(event.level), 7),
            role: if color {
                SpanRole::Level(event.level)
            } else {
                SpanRole::Text
            },
        },
        SpanView { text: " "@, role: SpanRole::Text },
    ]
}

/// A line of an event's row.
pub open spec fn row_line(
    event: EventView,
    color: bool,
    is_marked: bool,
    columns: Seq<ColumnView>,
    values: Seq<Seq<char>>,
    room: int,
    line: Seq<char>,
    index: int,
) -> Seq<SpanView> {
    let prefix = if index == 0 {
        row_prefix(event, color, is_marked)
    } else {
        seq![SpanView { text: fit::spaces(BASE_PREFIX_WIDTH as int), role: SpanRole::Text }]
    };
    let cells = if index == 0 {
        value_cells(event, columns)
    } else {
        blank_cells(columns)
    };
    prefix + padded_parts(line, values, room, columns.len() > 0, SpanRole::Text) + cells
}

/// The row of an event, line by line.
pub open spec fn row_of(
    event: EventView,
    color: bool,
    is_marked: bool,
    columns: Seq<ColumnView>,
    values: Seq<Seq<char>>,
    width: int,
    max_lines: int,
) -> Seq<Seq<SpanView>> {
    let room = room_for_message(width, columns);
    let lines = wrapped(fit::compact(event.message), room, max_lines);
    Seq::new(
        lines.len(),
        |i: int| row_line(event, color, is_marked, columns, values, room, lines[i], i),
    )
}

/// The views of the lines of a row.
pub open spec fn line_views(lines: Seq<Vec<RowSpan>>) -> Seq<Seq<SpanView>> {
    Seq::new(lines.len(), |i: int| text::views(lines[i]@))
}

fn push_padding(spans: &mut Vec<RowSpan>, length: usize, width: usize, role: SpanRole)
    ensures
        text::views(final(spans)@) == if length < width {
            text::views(old(spans)@).push(SpanView { text: fit::spaces(width - length), role })
        } else {
            text::views(old(spans)@)
        },
{
    if length < width {
        spans.push(RowSpan { text: blank(width - length), role });
    }
}

fn push_prefix(spans: &mut Vec<RowSpan>, event: &LogEvent, color_enabled: bool, is_marked: bool)
    requires
        old(spans)@.len() == 0,
    ensures
        text::views(final(spans)@) == row_prefix(event@, color_enabled, is_marked),
{
    let rail = if is_marked {
        "*"
    } else {
        " "
    };
    spans.push(RowSpan { text: copy_str(rail), role: SpanRole::Rail });
    let sequence = pad_left(decimal_string(event.sequence as u128).as_str(), 6);
    spans.push(RowSpan { text: concat(sequence.as_str(), " "), role: SpanRole::LineNumber });
    let source_role = if color_enabled {
        SpanRole::Source(source_color(event.source.as_str()))
    } else {
        SpanRole::Text
    };
    spans.push(RowSpan { text: padded_cell(event.source.as_str(), 14), role: source_role });
    spans.push(RowSpan { text: copy_str(" "), role: SpanRole::Text });
    let level_role = if color_enabled {
        SpanRole::Level(event.level)
    } else {
        SpanRole::Text
    };
    spans.push(RowSpan { text: pad_right(event.level.as_str(), 7), role: level_role });
    spans.push(RowSpan { text: copy_str(" "), role: SpanRole::Text });
    assert(text::views(spans@) =~= row_prefix(event@, color_enabled, is_marked));
}

fn render_line(
    event: &LogEvent,
    color_enabled: bool,
    is_marked: bool,
    columns: &[DisplayFieldColumn],
    highlight_values: &[&str],
    room: usize,
    line: &str,
    first: bool,
) -> (result: Vec<RowSpan>)
    ensures
        text::views(result@) == row_line(
            event@,
            color_enabled,
            is_marked,
            text::views(columns@),
            text::views(highlight_values@),
            room as int,
            line@,
            if first {
                0
            } else {
                1
            },
        ),
{
    let mut spans: Vec<RowSpan> = Vec::new();
    if first {
        push_prefix(&mut spans, event, color_enabled, is_marked);
    } else {
        spans.push(RowSpan { text: blank(BASE_PREFIX_WIDTH), role: SpanRole::Text });
        assert(text::views(spans@) =~= seq![
            SpanView { text: fit::spaces(BASE_PREFIX_WIDTH as int), role: SpanRole::Text },
        ]);
    }
    let ghost prefix = text::views(spans@);
    push_message_spans(&mut spans, line, highlight_values);
    assert(text::views(columns@).len() == columns@.len());
    let ghost parts = message_parts(line@, text::views(highlight_values@));
    if columns.len() > 0 {
        let length: usize = chars_of(line).len();
        push_padding(&mut spans, length, room, SpanRole::Text);
    }
    proof {
        let padded = padded_parts(
            line@,
            text::views(highlight_values@),
            room as int,
            columns@.len() > 0,
            SpanRole::Text,
        );
        assert(text::views(spans@) =~= prefix + padded);
    }
    if first {
        push_value_cells(&mut spans, event, columns);
    } else {
        push_blank_cells(&mut spans, columns);
    }
    spans
}

/// The row of an event.
pub fn render_event(
    event: &LogEvent,
    color_enabled: bool,
    is_marked: bool,
    columns: &[DisplayFieldColumn],
    highlight_values: &[&str],
    width: usize,
    max_lines: usize,
) -> (result: Vec<Vec<RowSpan>>)
    ensures
        line_views(result@) == row_of(
            event@,
            color_enabled,
            is_marked,
            text::views(columns@),
            text::views(highlight_values@),
            width as int,
            max_lines as int,
        ),
{
    let room = message_width(width, columns);
    let message = compact_whitespace(event.message.as_str());
    let lines = wrap_message(message.as_str(), room, max_lines);
    let ghost whole = row_of(
        event@,
        color_enabled,
        is_marked,
        text::views(columns@),
        text::views(highlight_values@),
        width as int,
        max_lines as int,
    );
    assert(text::views(lines@).len() == lines@.len());
    let mut result: Vec<Vec<RowSpan>> = Vec::new();
    let mut i: usize = 0;
    assert(line_views(result@) =~= whole.take(0));
    while i < lines.len()
        invariant
            i <= lines@.len(),
            room == room_for_message(width as int, text::views(columns@)),
            text::views(lines@) == wrapped(
                fit::compact(event@.message),
                room as int,
                max_lines as int,
            ),
            whole == row_of(
                event@,
                color_enabled,
                is_marked,
                text::views(columns@),
                text::views(highlight_values@),
                width as int,
                max_lines as int,
            ),
            whole.len() == lines@.len(),
            line_views(result@) == whole.take(i as int),
        decreases lines@.len() - i,
    {
        let line = render_line(
            event,
            color_enabled,
            is_marked,
            columns,
            highlight_values,
            room,
            lines[i].as_str(),
            i == 0,
        );
        assert(text::views(lines@)[i as int] == lines@[i as int]@);
        assert(whole[i as int] == text::views(line@));
        let ghost before = line_views(result@);
        result.push(line);
        assert(line_views(result@) =~= before.push(text::views(line@)));
        assert(whole.take(i + 1) =~= whole.take(i as int).push(whole[i as int]));
        i += 1;
    }
    assert(whole.take(i as int) =~= whole);
    result
}

/// The names over the rows.
pub open spec fn header_row(columns: Seq<ColumnView>, width: int) -> Seq<SpanView> {
    let room = room_for_message(width, columns);
    let names = seq![
        SpanView { text: fit::spaces(8), role: SpanRole::Header },
        SpanView { text: fit::padded_right("service"@, 14), role: SpanRole::Header },
        SpanView { text: " "@, role: SpanRole::Header },
        SpanView { text: fit::padded_right("level"@, 7), role: SpanRole::Header },
        SpanView { text: " "@, role: SpanRole::Header },
        SpanView { text: "message"@, role: SpanRole::Header },
    ];
    let padding = if columns.len() > 0 && "message"@.len() < room {
        seq![SpanView { text: fit::spaces(room - "message"@.len()), role: SpanRole::Header }]
    } else {
        Seq::empty()
    };
    names + padding + header_cells(columns)
}

/// The names over the rows.
pub fn render_header(columns: &[DisplayFieldColumn], width: usize) -> (result: Vec<RowSpan>)
    ensures
        text::views(result@) == header_row(text::views(columns@), width as int),
{
    let room = message_width(width, columns);
    let mut spans: Vec<RowSpan> = Vec::new();
    spans.push(RowSpan { text: blank(8), role: SpanRole::Header });
    spans.push(RowSpan { text: pad_right("service", 14), role: SpanRole::Header });
    spans.push(RowSpan { text: copy_str(" "), role: SpanRole::Header });
    spans.push(RowSpan { text: pad_right("level", 7), role: SpanRole::Header });
    spans.push(RowSpan { text: copy_str(" "), role: SpanRole::Header });
    spans.push(RowSpan { text: copy_str("message"), role: SpanRole::Header });
    let ghost names = text::views(spans@);
    assert(text::views(columns@).len() == columns@.len());
    proof {
        reveal_strlit("message");
    }
    if columns.len() > 0 {
        push_padding(&mut spans, 7, room, SpanRole::Header);
    }
    push_header_cells(&mut spans, columns);
    assert(text::views(spans@) =~= header_row(text::views(columns@), width as int));
    spans
}

// ---------------------------------------------------------------------------
// Laws
// ---------------------------------------------------------------------------

proof fn lemma_skip_spaces(s: Seq<char>, from: int)
    requires
        0 <= from <= s.len(),
    ensures
        from <= skip_spaces(s, from) <= s.len(),
    decreases s.len() - from,
{
    if from < s.len() && text::is_space(s[from]) {
        lemma_skip_spaces(s, from + 1);
    }
}

proof fn lemma_last_space(s: Seq<char>, from: int, to: int)
    ensures
        match last_space(s, from, to) {
            Some(at) => from <= at < to,
            None => true,
        },
    decreases to - from,
{
    if from < to && !text::is_space(s[to - 1]) {
        lemma_last_space(s, from, to - 1);
    }
}

proof fn lemma_wrapped_from(s: Seq<char>, from: int, width: int, max_lines: int, i: int)
    requires
        0 <= from <= s.len(),
        0 < width,
        0 <= max_lines,
    ensures
        wrapped_from(s, from, width, max_lines).len() <= max_lines,
        0 <= i < wrapped_from(s, from, width, max_lines).len() ==> wrapped_from(
            s,
            from,
            width,
            max_lines,
        )[i].len() <= width,
    decreases max_lines,
{
    lemma_skip_spaces(s, from);
    let start = skip_spaces(s, from);
    if max_lines > 0 && start < s.len() && start + width < s.len() {
        lemma_last_space(s, start, start + width);
        let next = match last_space(s, start, start + width) {
            Some(at) => at + 1,
            None => start + width,
        };
        lemma_wrapped_from(s, next, width, max_lines - 1, i - 1);
    }
}

/// A message takes at most as many lines as there may be, at least one where
/// there may be any, and none is wider than there is room for.
pub proof fn law_wrapped_message_fits(s: Seq<char>, width: int, max_lines: int, i: int)
    requires
        0 < width,
        0 <= max_lines,
    ensures
        wrapped(s, width, max_lines).len() <= max_lines,
        max_lines > 0 ==> wrapped(s, width, max_lines).len() >= 1,
        0 <= i < wrapped(s, width, max_lines).len() ==> wrapped(s, width, max_lines)[i].len()
            <= width,
{
    lemma_wrapped_from(s, 0, width, max_lines, i);
}

/// The text of parts, one after the other.
pub open spec fn parts_text(parts: Seq<SpanView>) -> Seq<char>
    decreases parts.len(),
{
    if parts.len() == 0 {
        Seq::empty()
    } else {
        parts[0].text + parts_text(parts.drop_first())
    }
}

proof fn lemma_parts_text_add(a: Seq<SpanView>, b: Seq<SpanView>)
    ensures
        parts_text(a + b) == parts_text(a) + parts_text(b),
    decreases a.len(),
{
    if a.len() == 0 {
        assert(a + b =~= b);
        assert(parts_text(a) + parts_text(b) =~= parts_text(b));
    } else {
        lemma_parts_text_add(a.drop_first(), b);
        assert((a + b).drop_first() =~= a.drop_first() + b);
        assert(parts_text(a) + parts_text(b) =~= a[0].text + (parts_text(a.drop_first())
            + parts_text(b)));
    }
}

proof fn lemma_one_part(part: SpanView)
    ensures
        parts_text(seq![part]) == part.text,
{
    let one = seq![part];
    reveal_with_fuel(parts_text, 2);
    assert(one.drop_first() =~= Seq::<SpanView>::empty());
    assert(part.text + Seq::<char>::empty() =~= part.text);
}

proof fn lemma_highlighted_text(s: Seq<char>, values: Seq<Seq<char>>)
    ensures
        parts_text(highlighted(s, values)) == s,
    decreases s.len(),
{
    if s.len() == 0 {
        assert(parts_text(highlighted(s, values)) =~= s);
    } else {
        lemma_first_highlight(s, values);
        match first_highlight(s, values) {
            None => {
                lemma_one_part(SpanView { text: s, role: SpanRole::Text });
            },
            Some((at, value)) => {
                let rest = s.skip(at + value.len());
                lemma_highlighted_text(rest, values);
                let plain = if at > 0 {
                    seq![SpanView { text: s.take(at), role: SpanRole::Text }]
                } else {
                    Seq::empty()
                };
                let lit = seq![SpanView { text: value, role: SpanRole::Highlight }];
                lemma_parts_text_add(plain + lit, highlighted(rest, values));
                lemma_parts_text_add(plain, lit);
                lemma_one_part(SpanView { text: value, role: SpanRole::Highlight });
                if at > 0 {
                    lemma_one_part(SpanView { text: s.take(at), role: SpanRole::Text });
                }
                assert(parts_text(plain) =~= s.take(at));
                assert(s =~= s.take(at) + value + rest) by {
                    assert(s.subrange(at, at + value.len()) == value);
                }
            },
        }
    }
}

/// Highlighting takes nothing from a message and adds nothing to it.
pub proof fn law_highlighting_keeps_the_message(s: Seq<char>, values: Seq<Seq<char>>)
    ensures
        parts_text(message_parts(s, values)) == s,
{
    lemma_highlighted_text(s, values);
    lemma_one_part(SpanView { text: s, role: SpanRole::Text });
}

} // verus!
