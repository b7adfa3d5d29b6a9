//! Lists over the screen.
use crate::commands::Command;
use crate::text;
use crate::text::{chars_of, copy_str};
use crate::ui::text::{self as fit, pad_right, padded_cell, truncate_tail};
use vstd::prelude::*;

verus! {

broadcast use text::lemma_views_push;

/// A part of the screen.
#[derive(Debug, Clone, Copy, PartialEq, Eq, Structural)]
pub struct Area {
    pub x: u16,
    pub y: u16,
    pub width: u16,
    pub height: u16,
}

impl Area {
    /// Whether the part is on a screen.
    pub open spec fn on_screen(self) -> bool {
        self.x + self.width <= u16::MAX && self.y + self.height <= u16::MAX
    }

    /// Whether the part is within another.
    pub open spec fn within(self, outer: Area) -> bool {
        &&& outer.x <= self.x
        &&& outer.y <= self.y
        &&& self.x + self.width <= outer.x + outer.width
        &&& self.y + self.height <= outer.y + outer.height
    }
}

/// A length between two, but not above what there is.
pub open spec fn bounded(length: int, least: int, most: int) -> int {
    let wanted = if length < least {
        least
    } else if length > most {
        most
    } else {
        length
    };
    if wanted > length {
        length
    } else {
        wanted
    }
}

/// The middle of a part of the screen, of some size.
pub open spec fn centered(area: Area, width: int, height: int) -> Area {
    Area {
        x: (area.x + (area.width - width) / 2) as u16,
        y: (area.y + (area.height - height) / 2) as u16,
        width: width as u16,
        height: height as u16,
    }
}

fn bound(length: u16, most: u16) -> (result: u16)
    ensures
        result == if length > most {
            most
        } else {
            length
        },
{
    if length > most {
        most
    } else {
        length
    }
}

/// Where a dialog is.
pub fn centered_dialog(area: Area) -> (result: Area)
    requires
        area.on_screen(),
    ensures
        result == centered(
            area,
            bounded(area.width as int, 32, 82),
            bounded(area.height as int, 8, 20),
        ),
        result.within(area),
{
    let width = bound(area.width, 82);
    let height = bound(area.height, 20);
    Area {
        x: area.x + (area.width - width) / 2,
        y: area.y + (area.height - height) / 2,
        width,
        height,
    }
}

/// Where the message is that is shown while commands end.
pub fn closing_overlay(area: Area) -> (result: Area)
    requires
        area.on_screen(),
    ensures
        result == centered(
            area,
            bounded(area.width as int, 32, 54),
            if area.height < 5 {
                area.height as int
            } else {
                5
            },
        ),
        result.within(area),
{
    let width = bound(area.width, 54);
    let height = bound(area.height, 5);
    Area {
        x: area.x + (area.width - width) / 2,
        y: area.y + (area.height - height) / 2,
        width,
        height,
    }
}

/// The part of the rows that is shown, from the first to after the last: the
/// selected row is the last where it is not within the first ones.
pub open spec fn window_of(len: int, selected: int, height: int) -> (int, int) {
    if len <= 0 || height <= 0 {
        (0, 0)
    } else {
        let row = if selected > len - 1 {
            len - 1
        } else {
            selected
        };
        let start = if row > height - 1 {
            row - (height - 1)
        } else {
            0
        };
        (
            start,
            if start + height < len {
                start + height
            } else {
                len
            },
        )
    }
}

/// The part of the rows that is shown.
pub fn visible_window(len: usize, selected: usize, height: usize) -> (result: (usize, usize))
    ensures
        (result.0 as int, result.1 as int) == window_of(len as int, selected as int, height as int),
        result.0 <= result.1 <= len,
{
    if len == 0 || height == 0 {
        return (0, 0);
    }
    let row: usize = if selected > len - 1 {
        len - 1
    } else {
        selected
    };
    let start: usize = row.saturating_sub(height - 1);
    let end: usize = if height < len - start {
        start + height
    } else {
        len
    };
    (start, end)
}

/// A row of a list.
#[derive(Debug, PartialEq, Eq)]
pub struct SelectableListItem {
    pub shortcut: Option<String>,
    pub label: String,
    pub description: String,
}

/// What a row of a list is.
pub struct ItemView {
    pub shortcut: Option<Seq<char>>,
    pub label: Seq<char>,
    pub description: Seq<char>,
}

impl View for SelectableListItem {
    type V = ItemView;

    open spec fn view(&self) -> ItemView {
        ItemView {
            shortcut: text::opt_view(self.shortcut),
            label: self.label@,
            description: self.description@,
        }
    }
}

/// The rows of commands.
pub open spec fn items_of(commands: Seq<crate::commands::CommandView>) -> Seq<ItemView> {
    Seq::new(
        commands.len(),
        |i: int|
            ItemView {
                shortcut: Some(commands[i].shortcut),
                label: commands[i].label,
                description: commands[i].description,
            },
    )
}

/// The rows of commands.
pub fn command_items(commands: &Vec<Command>) -> (result: Vec<SelectableListItem>)
    ensures
        text::views(result@) == items_of(text::views(commands@)),
{
    let ghost all = items_of(text::views(commands@));
    let mut result: Vec<SelectableListItem> = Vec::new();
    let mut i: usize = 0;
    assert(text::views(result@) =~= all.take(0));
    while i < commands.len()
        invariant
            i <= commands@.len(),
            all == items_of(text::views(commands@)),
            text::views(result@) == all.take(i as int),
        decreases commands@.len() - i,
    {
        result.push(
            SelectableListItem {
                shortcut: Some(copy_str(commands[i].shortcut)),
                label: copy_str(commands[i].label),
                description: copy_str(commands[i].description),
            },
        );
        assert(all.take(i + 1) =~= all.take(i as int).push(all[i as int]));
        i += 1;
    }
    assert(all.take(i as int) =~= all);
    result
}

/// What a part of a row stands for.
#[derive(Debug, Clone, Copy, PartialEq, Eq, Structural)]
pub enum ItemRole {
    Row,
    Muted,
}

/// A part of a row.
#[derive(Debug, PartialEq, Eq)]
pub struct ItemSpan {
    pub text: String,
    pub role: ItemRole,
}

impl View for ItemSpan {
    type V = (Seq<char>, ItemRole);

    open spec fn view(&self) -> (Seq<char>, ItemRole) {
        (self.text@, self.role)
    }
}

/// The length of the longest shortcut.
pub open spec fn longest_shortcut(items: Seq<ItemView>) -> int
    decreases items.len(),
{
    if items.len() == 0 {
        0
    } else {
        let before = longest_shortcut(items.drop_last());
        match items.last().shortcut {
            Some(shortcut) => if shortcut.len() > before {
                shortcut.len() as int
            } else {
                before
            },
            None => before,
        }
    }
}

/// The width of the column of shortcuts.
pub open spec fn shortcut_column(items: Seq<ItemView>) -> int {
    if longest_shortcut(items) > 10 {
        10
    } else {
        longest_shortcut(items)
    }
}

/// The width of the column of labels.
pub open spec fn label_column(shortcut_width: int, width: int) -> int {
    let room = width - (shortcut_width + 7);
    if room < 1 {
        1
    } else if room > 24 {
        24
    } else {
        room
    }
}

/// A row of a list of some width.
pub open spec fn item_row(
    item: ItemView,
    is_selected: bool,
    shortcut_width: int,
    width: int,
) -> Seq<(Seq<char>, ItemRole)> {
    let label_width = label_column(shortcut_width, width);
    let room = width - (2 + shortcut_width + 2 + label_width + 2);
    let shortcut = match item.shortcut {
        Some(shortcut) => shortcut,
        None => Seq::empty(),
    };
    seq![
        (
            if is_selected {
                "> "@
            } else {
                "  "@
            },
            ItemRole::Row,
        ),
        (fit::padded_right(shortcut, shortcut_width), ItemRole::Muted),
        ("  "@, ItemRole::Row),
        (fit::cell(item.label, label_width), ItemRole::Row),
        ("  "@, ItemRole::Row),
        (
            fit::cut(
                item.description,
                if room < 0 {
                    0
                } else {
                    room
                },
            ),
            ItemRole::Muted,
        ),
    ]
}

/// The rows of a list of some width.
pub open spec fn item_rows(items: Seq<ItemView>, selected: int, width: int) -> Seq<
    Seq<(Seq<char>, ItemRole)>,
> {
    Seq::new(
        items.len(),
        |i: int| item_row(items[i], i == selected, shortcut_column(items), width),
    )
}

/// The views of rows.
pub open spec fn row_views(rows: Seq<Vec<ItemSpan>>) -> Seq<Seq<(Seq<char>, ItemRole)>> {
    Seq::new(rows.len(), |i: int| text::views(rows[i]@))
}

fn measure_shortcuts(items: &[SelectableListItem]) -> (result: usize)
    ensures
        result == shortcut_column(text::views(items@)),
        result <= 10,
{
    let ghost all = text::views(items@);
    let mut longest: usize = 0;
    let mut i: usize = 0;
    assert(all.take(0) =~= Seq::<ItemView>::empty());
    while i < items.len()
        invariant
            i <= items@.len(),
            all == text::views(items@),
            longest == longest_shortcut(all.take(i as int)),
        decreases items@.len() - i,
    {
        assert(all.take(i + 1).drop_last() =~= all.take(i as int));
        match &items[i].shortcut {
            Some(shortcut) => {
                let length: usize = chars_of(shortcut.as_str()).len();
                if length > longest {
                    longest = length;
                }
            },
            None => {},
        }
        i += 1;
    }
    assert(all.take(i as int) =~= all);
    if longest > 10 {
        10
    } else {
        longest
    }
}

fn render_row(
    item: &SelectableListItem,
    is_selected: bool,
    shortcut_width: usize,
    width: usize,
) -> (result: Vec<ItemSpan>)
    requires
        shortcut_width <= 10,
    ensures
        text::views(result@) == item_row(item@, is_selected, shortcut_width as int, width as int),
{
    let room: usize = width.saturating_sub(shortcut_width + 7);
    let label_width: usize = if room < 1 {
        1
    } else if room > 24 {
        24
    } else {
        room
    };
    let description_width: usize = width.saturating_sub(2 + shortcut_width + 2 + label_width + 2);
    let marker = if is_selected {
        "> "
    } else {
        "  "
    };
    let shortcut = match &item.shortcut {
        Some(shortcut) => shortcut.as_str(),
        None => "",
    };
    proof {
        reveal_strlit("");
        assert(""@ =~= Seq::<char>::empty());
    }
    let mut spans: Vec<ItemSpan> = Vec::new();
    spans.push(ItemSpan { text: copy_str(marker), role: ItemRole::Row });
    spans.push(ItemSpan { text: pad_right(shortcut, shortcut_width), role: ItemRole::Muted });
    spans.push(ItemSpan { text: copy_str("  "), role: ItemRole::Row });
    spans.push(
        ItemSpan { text: padded_cell(item.label.as_str(), label_width), role: ItemRole::Row },
    );
    spans.push(ItemSpan { text: copy_str("  "), role: ItemRole::Row });
    spans.push(
        ItemSpan {
            text: truncate_tail(item.description.as_str(), description_width),
            role: ItemRole::Muted,
        },
    );
    assert(text::views(spans@) =~= item_row(
        item@,
        is_selected,
        shortcut_width as int,
        width as int,
    ));
    spans
}

/// The rows of a list of some width.
pub fn render_selectable_rows(items: &[SelectableListItem], selected: usize, width: usize) -> (result:
    Vec<Vec<ItemSpan>>)
    ensures
        row_views(result@) == item_rows(text::views(items@), selected as int, width as int),
{
    let shortcut_width = measure_shortcuts(items);
    let ghost all = item_rows(text::views(items@), selected as int, width as int);
    let mut result: Vec<Vec<ItemSpan>> = Vec::new();
    let mut i: usize = 0;
    assert(row_views(result@) =~= all.take(0));
    while i < items.len()
        invariant
            i <= items@.len(),
            shortcut_width <= 10,
            shortcut_width == shortcut_column(text::views(items@)),
            all == item_rows(text::views(items@), selected as int, width as int),
            row_views(result@) == all.take(i as int),
        decreases items@.len() - i,
    {
        let row = render_row(&items[i], i == selected, shortcut_width, width);
        assert(all[i as int] == text::views(row@));
        let ghost before = row_views(result@);
        result.push(row);
        assert(row_views(result@) =~= before.push(text::views(row@)));
        assert(all.take(i + 1) =~= all.take(i as int).push(all[i as int]));
        i += 1;
    }
    assert(all.take(i as int) =~= all);
    result
}

/// The selected row is among those that are shown, and no more are shown than
/// there is room for.
pub proof fn law_window_shows_selection(len: int, selected: int, height: int)
    requires
        0 <= selected < len,
        0 < height,
    ensures
        ({
            let (start, end) = window_of(len, selected, height);
            0 <= start <= selected < end <= len && end - start <= height
        }),
{
}

} // verus!
