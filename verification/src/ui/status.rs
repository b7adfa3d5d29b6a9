//! The line at the bottom of the screen.
use crate::app::state::AppView;
use crate::app::{App, Mode};
use crate::commands::{self, status_help_items, CommandHelpItem, CommandHelpLevel};
use crate::filter::{FilterView, LogFilter, PropertyPredicate};
use crate::model;
use crate::text;
use crate::text::number::{self, decimal_string};
use crate::text::split::{self, join_strings};
use crate::text::{concat, copy_str};
use crate::ui::text::{self as fit, truncate_tail};
use vstd::prelude::*;

verus! {

broadcast use text::lemma_views_push;

/// What a part of a line stands for.
#[derive(Debug, Clone, Copy, PartialEq, Eq, Structural)]
pub enum StatusRole {
    Base,
    Value,
    Key,
}

/// A part of a line.
#[derive(Debug, PartialEq, Eq)]
pub struct StatusSegment {
    pub text: String,
    pub role: StatusRole,
}

/// What a part of a line is.
pub struct SegmentView {
    pub text: Seq<char>,
    pub role: StatusRole,
}

impl View for StatusSegment {
    type V = SegmentView;

    open spec fn view(&self) -> SegmentView {
        SegmentView { text: self.text@, role: self.role }
    }
}

/// How much help is shown.
#[derive(Debug, Clone, Copy, PartialEq, Eq, Structural)]
pub enum HelpVariant {
    Full,
    Compact,
    Essential,
    Hidden,
}

/// Text that says what stands after it.
pub open spec fn base_part(text: Seq<char>) -> SegmentView {
    SegmentView { text, role: StatusRole::Base }
}

/// Text that is a value.
pub open spec fn value_part(text: Seq<char>) -> SegmentView {
    SegmentView { text, role: StatusRole::Value }
}

/// Text that is a key.
pub open spec fn key_part(text: Seq<char>) -> SegmentView {
    SegmentView { text, role: StatusRole::Key }
}

/// Appends a part.
pub fn push_part(segments: &mut Vec<StatusSegment>, text: &str, role: StatusRole)
    ensures
        text::views(final(segments)@) == text::views(old(segments)@).push(
            SegmentView { text: text@, role },
        ),
{
    segments.push(StatusSegment { text: copy_str(text), role });
}

// ---------------------------------------------------------------------------
// Room
// ---------------------------------------------------------------------------

/// How much help a width has room for.
pub open spec fn help_for(width: int) -> HelpVariant {
    if width >= 120 {
        HelpVariant::Full
    } else if width >= 80 {
        HelpVariant::Compact
    } else if width >= 48 {
        HelpVariant::Essential
    } else {
        HelpVariant::Hidden
    }
}

/// How much of each value is shown: of the source, the level, the text and the
/// conditions on properties.
pub struct Limits {
    pub source: int,
    pub level: int,
    pub text: int,
    pub properties: int,
}

/// The part of a number above another.
pub open spec fn above(a: int, b: int) -> int {
    if a > b {
        a - b
    } else {
        0
    }
}

/// How much of each value is shown.
pub open spec fn limits_for(width: int, help: HelpVariant) -> Limits {
    match help {
        HelpVariant::Essential => {
            let available = above(width, 44);
            let slot = available / 4;
            let level = if slot < 7 {
                slot
            } else {
                7
            };
            Limits { source: slot, level, text: slot, properties: available - slot * 2 - level }
        },
        _ => {
            let fixed = match help {
                HelpVariant::Full => 124int,
                HelpVariant::Compact => 82int,
                _ => 41int,
            };
            let available = above(width, fixed);
            if available >= 55 {
                Limits { source: 16, level: 7, text: 24, properties: 32 }
            } else if available >= 35 {
                Limits { source: 10, level: 7, text: 12, properties: 10 }
            } else if available >= 21 {
                Limits { source: 7, level: 5, text: 7, properties: 6 }
            } else if available >= 12 {
                Limits { source: 4, level: 3, text: 4, properties: 3 }
            } else {
                Limits { source: 1, level: 1, text: 1, properties: 1 }
            }
        },
    }
}

fn help_variant(width: u16) -> (result: HelpVariant)
    ensures
        result == help_for(width as int),
{
    if width >= 120 {
        HelpVariant::Full
    } else if width >= 80 {
        HelpVariant::Compact
    } else if width >= 48 {
        HelpVariant::Essential
    } else {
        HelpVariant::Hidden
    }
}

fn value_limits(width: u16, help: HelpVariant) -> (result: (usize, usize, usize, usize))
    ensures
        ({
            let limits = limits_for(width as int, help);
            &&& result.0 == limits.source
            &&& result.1 == limits.level
            &&& result.2 == limits.text
            &&& result.3 == limits.properties
        }),
{
    let width: usize = width as usize;
    match help {
        HelpVariant::Essential => {
            // What stands around the values takes 23 columns before the help,
            // 3 between, and 18 for the help.
            let available: usize = width.saturating_sub(44);
            let slot: usize = available / 4;
            let level: usize = if slot < 7 {
                slot
            } else {
                7
            };
            (slot, level, slot, available - slot * 2 - level)
        },
        _ => {
            let fixed: usize = match help {
                HelpVariant::Full => 124,
                HelpVariant::Compact => 82,
                _ => 41,
            };
            let available: usize = width.saturating_sub(fixed);
            if available >= 55 {
                (16, 7, 24, 32)
            } else if available >= 35 {
                (10, 7, 12, 10)
            } else if available >= 21 {
                (7, 5, 7, 6)
            } else if available >= 12 {
                (4, 3, 4, 3)
            } else {
                (1, 1, 1, 1)
            }
        },
    }
}

// ---------------------------------------------------------------------------
// Filters
// ---------------------------------------------------------------------------

/// The conditions on properties, in words.
pub open spec fn condition_texts(filters: FilterView) -> Seq<Seq<char>> {
    Seq::new(filters.includes.len(), |i: int| filters.includes[i].summary(false)) + Seq::new(
        filters.excludes.len(),
        |i: int| filters.excludes[i].summary(true),
    )
}

/// The conditions on properties in one text.
pub open spec fn conditions_text(filters: FilterView) -> Seq<char> {
    if filters.includes.len() == 0 && filters.excludes.len() == 0 {
        "-"@
    } else {
        split::join(condition_texts(filters), ","@)
    }
}

fn push_summaries(out: &mut Vec<String>, predicates: &Vec<PropertyPredicate>, exclude: bool)
    ensures
        text::views(final(out)@) == text::views(old(out)@) + Seq::new(
            predicates@.len(),
            |i: int| predicates@[i]@.summary(exclude),
        ),
{
    let ghost before = text::views(out@);
    let ghost all = Seq::new(predicates@.len(), |i: int| predicates@[i]@.summary(exclude));
    let mut i: usize = 0;
    assert(before + all.take(0) =~= before);
    while i < predicates.len()
        invariant
            i <= predicates@.len(),
            all == Seq::new(predicates@.len(), |i: int| predicates@[i]@.summary(exclude)),
            text::views(out@) == before + all.take(i as int),
        decreases predicates@.len() - i,
    {
        out.push(predicates[i].summary_for(exclude));
        assert(before + all.take(i + 1) =~= (before + all.take(i as int)).push(all[i as int]));
        i += 1;
    }
    assert(all.take(i as int) =~= all);
}

/// The conditions on properties in one text.
pub fn property_filters_summary(filters: &LogFilter) -> (result: String)
    ensures
        result@ == conditions_text(filters@),
{
    assert(filters@.includes.len() == filters.property_includes@.len());
    assert(filters@.excludes.len() == filters.property_excludes@.len());
    if filters.property_includes.len() == 0 && filters.property_excludes.len() == 0 {
        return copy_str("-");
    }
    let mut parts: Vec<String> = Vec::new();
    push_summaries(&mut parts, &filters.property_includes, false);
    push_summaries(&mut parts, &filters.property_excludes, true);
    assert(text::views(parts@) =~= condition_texts(filters@));
    join_strings(&parts, ",")
}

/// A value, or a mark where there is none.
pub open spec fn or_dash(value: Option<Seq<char>>) -> Seq<char> {
    match value {
        Some(value) => value,
        None => "-"@,
    }
}

/// The name of a level, or a mark where there is none.
pub open spec fn level_or_dash(filters: FilterView) -> Seq<char> {
    match filters.level {
        Some(level) => model::level_name(level),
        None => "-"@,
    }
}

/// The help that is shown.
pub open spec fn help_items(help: HelpVariant) -> Seq<(Seq<char>, Seq<char>)> {
    match help {
        HelpVariant::Full => commands::status_help(CommandHelpLevel::Full),
        HelpVariant::Compact => commands::status_help(CommandHelpLevel::Compact),
        HelpVariant::Essential => seq![("q"@, "quit"@), ("?"@, "commands"@)],
        HelpVariant::Hidden => Seq::empty(),
    }
}

/// Keys and what they do.
pub open spec fn help_parts(items: Seq<(Seq<char>, Seq<char>)>) -> Seq<SegmentView>
    decreases items.len(),
{
    if items.len() == 0 {
        Seq::empty()
    } else {
        let gap = if items.len() == 1 {
            base_part("   "@)
        } else {
            base_part("  "@)
        };
        help_parts(items.drop_last()).push(gap).push(key_part(items.last().0)).push(
            base_part(" "@ + items.last().1),
        )
    }
}

/// The filter, and the help there is room for.
pub open spec fn filter_parts(filters: FilterView, width: int) -> Seq<SegmentView> {
    let help = help_for(width);
    let limits = limits_for(width, help);
    let short = help == HelpVariant::Essential;
    seq![
        base_part(" filters "@),
        base_part(
            if short {
                "s="@
            } else {
                "source="@
            },
        ),
        value_part(fit::cut(or_dash(filters.source), limits.source)),
        base_part(
            if short {
                "  l="@
            } else {
                "  level="@
            },
        ),
        value_part(fit::cut(level_or_dash(filters), limits.level)),
        base_part(
            if short {
                "  /="@
            } else {
                "  search="@
            },
        ),
        value_part(fit::cut(or_dash(filters.text), limits.text)),
        base_part(
            if short {
                "  p="@
            } else {
                "  props="@
            },
        ),
        value_part(fit::cut(conditions_text(filters), limits.properties)),
    ] + help_parts(help_items(help))
}

fn append_help_items(segments: &mut Vec<StatusSegment>, items: &Vec<CommandHelpItem>)
    ensures
        text::views(final(segments)@) == text::views(old(segments)@) + help_parts(
            text::views(items@),
        ),
{
    let ghost before = text::views(segments@);
    let ghost all = text::views(items@);
    let mut i: usize = 0;
    assert(all.take(0) =~= Seq::<(Seq<char>, Seq<char>)>::empty());
    assert(before + help_parts(all.take(0)) =~= before);
    while i < items.len()
        invariant
            i <= items@.len(),
            all == text::views(items@),
            text::views(segments@) == before + help_parts(all.take(i as int)),
        decreases items@.len() - i,
    {
        assert(all.take(i + 1).drop_last() =~= all.take(i as int));
        let ghost done = text::views(segments@);
        let gap = if i == 0 {
            "   "
        } else {
            "  "
        };
        push_part(segments, gap, StatusRole::Base);
        push_part(segments, items[i].shortcut, StatusRole::Key);
        let label = concat(" ", items[i].label);
        push_part(segments, label.as_str(), StatusRole::Base);
        assert(text::views(segments@) =~= before + help_parts(all.take(i + 1)));
        i += 1;
    }
    assert(all.take(i as int) =~= all);
}

fn append_help(segments: &mut Vec<StatusSegment>, help: HelpVariant)
    ensures
        text::views(final(segments)@) == text::views(old(segments)@) + help_parts(
            help_items(help),
        ),
{
    let items = match help {
        HelpVariant::Full => status_help_items(CommandHelpLevel::Full),
        HelpVariant::Compact => status_help_items(CommandHelpLevel::Compact),
        HelpVariant::Essential => {
            let mut items: Vec<CommandHelpItem> = Vec::new();
            items.push(CommandHelpItem { shortcut: "q", label: "quit" });
            items.push(CommandHelpItem { shortcut: "?", label: "commands" });
            items
        },
        HelpVariant::Hidden => Vec::new(),
    };
    assert(text::views(items@) =~= help_items(help));
    append_help_items(segments, &items);
}

/// The filter, and the help there is room for.
pub fn status_segments(filters: &LogFilter, width: u16) -> (result: Vec<StatusSegment>)
    ensures
        text::views(result@) == filter_parts(filters@, width as int),
{
    let text_value = match &filters.text {
        Some(value) => value.as_str(),
        None => "-",
    };
    let source = match &filters.source {
        Some(value) => value.as_str(),
        None => "-",
    };
    let level = match filters.level {
        Some(level) => level.as_str(),
        None => "-",
    };
    let properties = property_filters_summary(filters);
    let help = help_variant(width);
    let (source_limit, level_limit, text_limit, property_limit) = value_limits(width, help);
    let short = help == HelpVariant::Essential;
    let mut segments: Vec<StatusSegment> = Vec::new();
    push_part(&mut segments, " filters ", StatusRole::Base);
    push_part(
        &mut segments,
        if short {
            "s="
        } else {
            "source="
        },
        StatusRole::Base,
    );
    push_part(&mut segments, truncate_tail(source, source_limit).as_str(), StatusRole::Value);
    push_part(
        &mut segments,
        if short {
            "  l="
        } else {
            "  level="
        },
        StatusRole::Base,
    );
    push_part(&mut segments, truncate_tail(level, level_limit).as_str(), StatusRole::Value);
    push_part(
        &mut segments,
        if short {
            "  /="
        } else {
            "  search="
        },
        StatusRole::Base,
    );
    push_part(&mut segments, truncate_tail(text_value, text_limit).as_str(), StatusRole::Value);
    push_part(
        &mut segments,
        if short {
            "  p="
        } else {
            "  props="
        },
        StatusRole::Base,
    );
    push_part(
        &mut segments,
        truncate_tail(properties.as_str(), property_limit).as_str(),
        StatusRole::Value,
    );
    let ghost before = text::views(segments@);
    append_help(&mut segments, help);
    assert(text::views(segments@) =~= filter_parts(filters@, width as int));
    segments
}

// ---------------------------------------------------------------------------
// The whole line
// ---------------------------------------------------------------------------

/// A number of lines in words.
pub open spec fn lines_text(count: int) -> Seq<char> {
    if count == 1 {
        "1 line"@
    } else {
        number::decimal(count as nat) + " lines"@
    }
}

/// A number of lines in words.
pub fn line_count_label(count: usize) -> (result: String)
    ensures
        result@ == lines_text(count as int),
{
    if count == 1 {
        copy_str("1 line")
    } else {
        concat(decimal_string(count as u128).as_str(), " lines")
    }
}

/// What is told when lines were copied.
pub fn copied_notice(count: usize) -> (result: String)
    ensures
        result@ == "copied "@ + lines_text(count as int),
{
    concat("copied ", line_count_label(count).as_str())
}

/// What is told, where there is something to tell.
pub open spec fn notice_parts(notice: Seq<char>, width: int) -> Seq<SegmentView> {
    seq![base_part(" "@), value_part(fit::cut(notice, width))]
}

/// How many events are selected, and what can be done with them.
pub open spec fn visual_parts(count: int) -> Seq<SegmentView> {
    seq![
        base_part(" visual "@),
        value_part(lines_text(count)),
        base_part("  "@),
        key_part("y"@),
        base_part(" copy  "@),
        key_part("Esc"@),
        base_part(" cancel"@),
    ]
}

/// How many events are selected in visual mode.
pub open spec fn selected_count(app: AppView) -> int {
    match app.visual_range() {
        Some((start, end)) => end - start + 1,
        None => 0,
    }
}

/// The line at the bottom of the screen.
pub open spec fn status_parts(app: AppView, width: int) -> Seq<SegmentView> {
    match app.notice {
        Some(notice) => notice_parts(notice, width),
        None => if app.mode == Mode::Visual {
            visual_parts(selected_count(app))
        } else {
            filter_parts(app.workflow.filters, width)
        },
    }
}

fn notice_segments(notice: &str, width: u16) -> (result: Vec<StatusSegment>)
    ensures
        text::views(result@) == notice_parts(notice@, width as int),
{
    let mut segments: Vec<StatusSegment> = Vec::new();
    push_part(&mut segments, " ", StatusRole::Base);
    push_part(
        &mut segments,
        truncate_tail(notice, width as usize).as_str(),
        StatusRole::Value,
    );
    assert(text::views(segments@) =~= notice_parts(notice@, width as int));
    segments
}

fn visual_segments(count: usize) -> (result: Vec<StatusSegment>)
    ensures
        text::views(result@) == visual_parts(count as int),
{
    let mut segments: Vec<StatusSegment> = Vec::new();
    push_part(&mut segments, " visual ", StatusRole::Base);
    push_part(&mut segments, line_count_label(count).as_str(), StatusRole::Value);
    push_part(&mut segments, "  ", StatusRole::Base);
    push_part(&mut segments, "y", StatusRole::Key);
    push_part(&mut segments, " copy  ", StatusRole::Base);
    push_part(&mut segments, "Esc", StatusRole::Key);
    push_part(&mut segments, " cancel", StatusRole::Base);
    assert(text::views(segments@) =~= visual_parts(count as int));
    segments
}

/// The line at the bottom of the screen.
pub fn app_status_segments(app: &App, width: u16) -> (result: Vec<StatusSegment>)
    requires
        app.wf(),
    ensures
        text::views(result@) == status_parts(app@, width as int),
{
    match app.notice() {
        Some(notice) => notice_segments(notice, width),
        None => if *app.mode() == Mode::Visual {
            visual_segments(app.visual_selected_count())
        } else {
            status_segments(app.filters(), width)
        },
    }
}

// ---------------------------------------------------------------------------
// Laws
// ---------------------------------------------------------------------------

/// How long parts are together.
pub open spec fn parts_len(parts: Seq<SegmentView>) -> int
    decreases parts.len(),
{
    if parts.len() == 0 {
        0
    } else {
        parts_len(parts.drop_last()) + parts.last().text.len()
    }
}

proof fn lemma_parts_len_add(a: Seq<SegmentView>, b: Seq<SegmentView>)
    ensures
        parts_len(a + b) == parts_len(a) + parts_len(b),
    decreases b.len(),
{
    if b.len() == 0 {
        assert(a + b =~= a);
    } else {
        lemma_parts_len_add(a, b.drop_last());
        assert((a + b).drop_last() =~= a + b.drop_last());
    }
}

proof fn lemma_parts_len_push(parts: Seq<SegmentView>, part: SegmentView)
    ensures
        parts_len(parts.push(part)) == parts_len(parts) + part.text.len(),
{
    assert(parts.push(part).drop_last() =~= parts);
}

proof fn lemma_essential_help()
    ensures
        parts_len(help_parts(help_items(HelpVariant::Essential))) == 21,
{
    reveal_strlit("q");
    reveal_strlit("quit");
    reveal_strlit("?");
    reveal_strlit("commands");
    reveal_strlit("   ");
    reveal_strlit("  ");
    reveal_strlit(" ");
    let items = help_items(HelpVariant::Essential);
    let one = items.drop_last();
    assert(one =~= seq![("q"@, "quit"@)]);
    assert(one.drop_last() =~= Seq::<(Seq<char>, Seq<char>)>::empty());
    reveal_with_fuel(help_parts, 3);
    let none = Seq::<SegmentView>::empty();
    let first = none.push(base_part("   "@)).push(key_part("q"@)).push(
        base_part(" "@ + "quit"@),
    );
    lemma_parts_len_push(none, base_part("   "@));
    lemma_parts_len_push(none.push(base_part("   "@)), key_part("q"@));
    lemma_parts_len_push(
        none.push(base_part("   "@)).push(key_part("q"@)),
        base_part(" "@ + "quit"@),
    );
    assert(help_parts(one) =~= first);
    lemma_parts_len_push(first, base_part("  "@));
    lemma_parts_len_push(first.push(base_part("  "@)), key_part("?"@));
    lemma_parts_len_push(
        first.push(base_part("  "@)).push(key_part("?"@)),
        base_part(" "@ + "commands"@),
    );
}

/// On a narrow screen that has room for the essential help, the filter is cut
/// so that the whole line fits.
pub proof fn law_narrow_status_fits(filters: FilterView, width: int)
    requires
        48 <= width < 80,
    ensures
        parts_len(filter_parts(filters, width)) <= width,
{
    reveal_strlit(" filters ");
    reveal_strlit("s=");
    reveal_strlit("  l=");
    reveal_strlit("  /=");
    reveal_strlit("  p=");
    lemma_essential_help();
    let limits = limits_for(width, HelpVariant::Essential);
    let source = fit::cut(or_dash(filters.source), limits.source);
    let level = fit::cut(level_or_dash(filters), limits.level);
    let text = fit::cut(or_dash(filters.text), limits.text);
    let properties = fit::cut(conditions_text(filters), limits.properties);
    fit::law_cut_text_fits(or_dash(filters.source), limits.source);
    fit::law_cut_text_fits(level_or_dash(filters), limits.level);
    fit::law_cut_text_fits(or_dash(filters.text), limits.text);
    fit::law_cut_text_fits(conditions_text(filters), limits.properties);
    let none = Seq::<SegmentView>::empty();
    let p1 = none.push(base_part(" filters "@));
    let p2 = p1.push(base_part("s="@));
    let p3 = p2.push(value_part(source));
    let p4 = p3.push(base_part("  l="@));
    let p5 = p4.push(value_part(level));
    let p6 = p5.push(base_part("  /="@));
    let p7 = p6.push(value_part(text));
    let p8 = p7.push(base_part("  p="@));
    let p9 = p8.push(value_part(properties));
    lemma_parts_len_push(none, base_part(" filters "@));
    lemma_parts_len_push(p1, base_part("s="@));
    lemma_parts_len_push(p2, value_part(source));
    lemma_parts_len_push(p3, base_part("  l="@));
    lemma_parts_len_push(p4, value_part(level));
    lemma_parts_len_push(p5, base_part("  /="@));
    lemma_parts_len_push(p6, value_part(text));
    lemma_parts_len_push(p7, base_part("  p="@));
    lemma_parts_len_push(p8, value_part(properties));
    let help = help_parts(help_items(HelpVariant::Essential));
    assert(filter_parts(filters, width) =~= p9 + help);
    lemma_parts_len_add(p9, help);
}

} // verus!
