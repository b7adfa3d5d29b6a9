//! Facets as rows of a dialog.
use crate::facet::escape::{self, escape_facet_text};
use crate::facet::{self, FacetGroup, FacetKind, FacetValueType, GroupView};
use crate::filter::contains_ignore_ascii_case;
use crate::text;
use crate::text::number::decimal_string;
use crate::text::{push_str, string_of};
use crate::ui;
use crate::ui::text::truncate_tail;
use vstd::prelude::*;

verus! {

broadcast use text::lemma_views_push;

/// A value of a facet as it is listed.
#[derive(Debug, PartialEq, Eq)]
pub struct FacetDialogRow {
    pub facet: FacetKind,
    pub value: String,
    pub count: usize,
    pub value_types: Vec<FacetValueType>,
}

/// What a listed value is.
pub struct FacetRowView {
    pub facet: FacetKind,
    pub value: Seq<char>,
    pub count: int,
    pub types: Seq<FacetValueType>,
}

impl View for FacetDialogRow {
    type V = FacetRowView;

    open spec fn view(&self) -> FacetRowView {
        FacetRowView {
            facet: self.facet,
            value: self.value@,
            count: self.count as int,
            types: self.value_types@,
        }
    }
}

/// Types equal to the given ones.
fn copy_types(items: &Vec<FacetValueType>) -> (result: Vec<FacetValueType>)
    ensures
        result@ == items@,
{
    vstd::slice::slice_to_vec(items.as_slice())
}

impl Clone for FacetDialogRow {
    fn clone(&self) -> (result: Self)
        ensures
            result@ == self@,
    {
        FacetDialogRow {
            facet: self.facet,
            value: self.value.clone(),
            count: self.count,
            value_types: copy_types(&self.value_types),
        }
    }
}

// ---------------------------------------------------------------------------
// Rows
// ---------------------------------------------------------------------------

/// The index of the first facet of a kind, or the number of facets.
pub open spec fn group_index(groups: Seq<GroupView>, kind: FacetKind) -> int
    decreases groups.len(),
{
    if groups.len() == 0 || groups[0].facet == kind {
        0
    } else {
        1 + group_index(groups.drop_first(), kind)
    }
}

/// The first facet of a kind.
pub open spec fn group_of_kind(groups: Seq<GroupView>, kind: FacetKind) -> Option<GroupView> {
    let i = group_index(groups, kind);
    if i < groups.len() {
        Some(groups[i])
    } else {
        None
    }
}

/// The rows of a facet.
pub open spec fn group_rows(group: GroupView) -> Seq<FacetRowView> {
    Seq::new(
        group.buckets.len(),
        |i: int|
            FacetRowView {
                facet: group.facet,
                value: group.buckets[i].value,
                count: group.buckets[i].count,
                types: group.buckets[i].types,
            },
    )
}

/// The rows of the facet of a kind, where there is one.
pub open spec fn kind_rows(groups: Seq<GroupView>, kind: FacetKind) -> Seq<FacetRowView> {
    match group_of_kind(groups, kind) {
        Some(group) => group_rows(group),
        None => Seq::empty(),
    }
}

/// The rows of sources, levels and property keys.
pub open spec fn root_rows(groups: Seq<GroupView>) -> Seq<FacetRowView> {
    kind_rows(groups, FacetKind::Source) + kind_rows(groups, FacetKind::Level) + kind_rows(
        groups,
        FacetKind::PropertyKey,
    )
}

/// Whether the name of some type contains a query.
pub open spec fn types_match(types: Seq<FacetValueType>, query: Seq<char>) -> bool {
    exists|i: int|
        0 <= i < types.len() && text::contains_ignore_case(
            facet::name_of_type(#[trigger] types[i]),
            query,
        )
}

/// Whether a row is found by a query.
pub open spec fn row_matches(row: FacetRowView, query: Seq<char>) -> bool {
    ||| query.len() == 0
    ||| text::contains_ignore_case(row.value, query)
    ||| text::contains_ignore_case(escape::escape(row.value), query)
    ||| text::contains_ignore_case(facet::kind_name(row.facet), query)
    ||| types_match(row.types, query)
}

/// The rows that a query finds.
pub open spec fn rows_matching(rows: Seq<FacetRowView>, query: Seq<char>) -> Seq<FacetRowView>
    decreases rows.len(),
{
    if rows.len() == 0 {
        rows
    } else if row_matches(rows.last(), query) {
        rows_matching(rows.drop_last(), query).push(rows.last())
    } else {
        rows_matching(rows.drop_last(), query)
    }
}

/// The index of the first row with a facet and a value, or the number of rows.
pub open spec fn row_index(rows: Seq<FacetRowView>, facet: FacetKind, value: Seq<char>) -> int
    decreases rows.len(),
{
    if rows.len() == 0 || (rows[0].facet == facet && rows[0].value == value) {
        0
    } else {
        1 + row_index(rows.drop_first(), facet, value)
    }
}

/// `row_index` is the first row with the facet and the value.
pub proof fn lemma_row_index(rows: Seq<FacetRowView>, facet: FacetKind, value: Seq<char>)
    ensures
        0 <= row_index(rows, facet, value) <= rows.len(),
        row_index(rows, facet, value) < rows.len() ==> rows[row_index(rows, facet, value)].facet
            == facet && rows[row_index(rows, facet, value)].value == value,
    decreases rows.len(),
{
    if rows.len() > 0 && !(rows[0].facet == facet && rows[0].value == value) {
        lemma_row_index(rows.drop_first(), facet, value);
    }
}

/// The first facet of a kind.
pub fn facet_group(groups: &Vec<FacetGroup>, kind: FacetKind) -> (result: Option<&FacetGroup>)
    ensures
        match result {
            Some(group) => group_of_kind(text::views(groups@), kind) == Some(group@),
            None => group_of_kind(text::views(groups@), kind) is None,
        },
{
    let ghost all = text::views(groups@);
    let mut i: usize = 0;
    assert(all.skip(0) =~= all);
    while i < groups.len()
        invariant
            i <= groups@.len(),
            all == text::views(groups@),
            group_index(all, kind) == i + group_index(all.skip(i as int), kind),
        decreases groups@.len() - i,
    {
        if groups[i].facet == kind {
            return Some(&groups[i]);
        }
        assert(all.skip(i as int).drop_first() =~= all.skip(i + 1));
        i += 1;
    }
    None
}

/// The rows of a facet.
pub fn facet_group_rows(group: &FacetGroup) -> (result: Vec<FacetDialogRow>)
    ensures
        text::views(result@) == group_rows(group@),
{
    let ghost all = group_rows(group@);
    let mut rows: Vec<FacetDialogRow> = Vec::new();
    let mut i: usize = 0;
    assert(text::views(rows@) =~= all.take(0));
    while i < group.buckets.len()
        invariant
            i <= group.buckets@.len(),
            all == group_rows(group@),
            text::views(rows@) == all.take(i as int),
        decreases group.buckets@.len() - i,
    {
        let bucket = &group.buckets[i];
        let row = FacetDialogRow {
            facet: group.facet,
            value: bucket.value.clone(),
            count: bucket.count,
            value_types: copy_types(&bucket.value_types),
        };
        assert(group@.buckets[i as int] == bucket@);
        assert(row@ == all[i as int]);
        rows.push(row);
        assert(all.take(i + 1) =~= all.take(i as int).push(all[i as int]));
        i += 1;
    }
    assert(all.take(i as int) =~= all);
    rows
}

fn rows_of_kind(groups: &Vec<FacetGroup>, kind: FacetKind) -> (result: Vec<FacetDialogRow>)
    ensures
        text::views(result@) == kind_rows(text::views(groups@), kind),
{
    match facet_group(groups, kind) {
        Some(group) => facet_group_rows(group),
        None => {
            let none: Vec<FacetDialogRow> = Vec::new();
            assert(text::views(none@) =~= Seq::<FacetRowView>::empty());
            none
        },
    }
}

fn append_rows(rows: &mut Vec<FacetDialogRow>, more: Vec<FacetDialogRow>)
    ensures
        text::views(final(rows)@) == text::views(old(rows)@) + text::views(more@),
{
    let ghost added = more@;
    let mut more = more;
    rows.append(&mut more);
    assert(text::views(rows@) =~= text::views(old(rows)@) + text::views(added));
}

/// The rows of sources, levels and property keys.
pub fn facet_root_rows(groups: &Vec<FacetGroup>) -> (result: Vec<FacetDialogRow>)
    ensures
        text::views(result@) == root_rows(text::views(groups@)),
{
    let mut rows = rows_of_kind(groups, FacetKind::Source);
    append_rows(&mut rows, rows_of_kind(groups, FacetKind::Level));
    append_rows(&mut rows, rows_of_kind(groups, FacetKind::PropertyKey));
    rows
}

/// Whether a row is found by a query.
pub fn facet_dialog_row_matches(row: &FacetDialogRow, query: &str) -> (result: bool)
    ensures
        result == row_matches(row@, query@),
{
    if query.is_empty() || contains_ignore_ascii_case(row.value.as_str(), query)
        || contains_ignore_ascii_case(escape_facet_text(row.value.as_str()).as_str(), query)
        || contains_ignore_ascii_case(row.facet.as_str(), query) {
        return true;
    }
    let mut i: usize = 0;
    while i < row.value_types.len()
        invariant
            i <= row.value_types@.len(),
            forall|j: int|
                0 <= j < i ==> !text::contains_ignore_case(
                    facet::name_of_type(#[trigger] row.value_types@[j]),
                    query@,
                ),
        decreases row.value_types@.len() - i,
    {
        if contains_ignore_ascii_case(row.value_types[i].as_str(), query) {
            return true;
        }
        i += 1;
    }
    false
}

/// The rows that a query finds.
pub fn matching_rows<'a>(rows: &'a Vec<FacetDialogRow>, query: &str) -> (result: Vec<
    &'a FacetDialogRow,
>)
    ensures
        text::views(result@) == rows_matching(text::views(rows@), query@),
{
    let ghost all = text::views(rows@);
    let mut result: Vec<&'a FacetDialogRow> = Vec::new();
    let mut i: usize = 0;
    assert(text::views(result@) =~= all.take(0));
    while i < rows.len()
        invariant
            i <= rows@.len(),
            all == text::views(rows@),
            text::views(result@) == rows_matching(all.take(i as int), query@),
        decreases rows@.len() - i,
    {
        assert(all.take(i + 1).drop_last() =~= all.take(i as int));
        if facet_dialog_row_matches(&rows[i], query) {
            result.push(&rows[i]);
        }
        i += 1;
    }
    assert(all.take(i as int) =~= all);
    result
}

/// The place of a facet and a value among rows.
pub fn find_row(rows: &Vec<&FacetDialogRow>, facet: FacetKind, value: &str) -> (result: usize)
    ensures
        result == row_index(text::views(rows@), facet, value@),
        result <= rows@.len(),
{
    let ghost all = text::views(rows@);
    let mut i: usize = 0;
    assert(all.skip(0) =~= all);
    while i < rows.len()
        invariant
            i <= rows@.len(),
            all == text::views(rows@),
            row_index(all, facet, value@) == i + row_index(all.skip(i as int), facet, value@),
        decreases rows@.len() - i,
    {
        if rows[i].facet == facet && text::same(rows[i].value.as_str(), value) {
            return i;
        }
        assert(all.skip(i as int).drop_first() =~= all.skip(i + 1));
        i += 1;
    }
    i
}

// ---------------------------------------------------------------------------
// Summaries
// ---------------------------------------------------------------------------

/// How many characters the summary of a facet has at most.
pub const MAX_SUMMARY_CHARS: usize = 80;

/// A number and a number that it is out of.
pub open spec fn out_of(label: Seq<char>, part: int, whole: int) -> Seq<char> {
    label + text::number::decimal(part as nat) + "/"@ + text::number::decimal(whole as nat)
}

/// How much of a window was looked at.
pub open spec fn window_summary(group: GroupView) -> Seq<char> {
    out_of("win="@, group.window_records, group.available_records) + if group.window_truncated {
        " clipped"@
    } else {
        Seq::empty()
    }
}

/// How many buckets of a kind are shown, and how many there are.
pub open spec fn bucket_summary(
    label: Seq<char>,
    groups: Seq<GroupView>,
    kind: FacetKind,
) -> Seq<char> {
    match group_of_kind(groups, kind) {
        Some(group) => out_of(label, group.buckets.len() as int, group.total_buckets),
        None => out_of(label, 0, 0),
    }
}

/// The facets in one line.
pub open spec fn root_summary(groups: Seq<GroupView>) -> Seq<char> {
    if groups.len() == 0 {
        Seq::empty()
    } else {
        window_summary(groups[0]) + bucket_summary(" src="@, groups, FacetKind::Source)
            + bucket_summary(" lvl="@, groups, FacetKind::Level) + bucket_summary(
            " key="@,
            groups,
            FacetKind::PropertyKey,
        )
    }
}

/// The summary of a property's values before its key.
pub open spec fn value_summary_head(group: GroupView) -> Seq<char> {
    window_summary(group) + out_of(
        " val="@,
        group.buckets.len() as int,
        group.total_buckets,
    ) + " key="@
}

/// The values of a property in one line, with the key cut to what fits.
pub open spec fn value_summary(group: GroupView, key: Seq<char>) -> Seq<char> {
    let head = value_summary_head(group);
    let room = if head.len() < MAX_SUMMARY_CHARS {
        MAX_SUMMARY_CHARS - head.len()
    } else {
        0
    };
    head + ui::text::cut(escape::escape(key), room)
}

fn push_out_of(out: &mut Vec<char>, label: &str, part: usize, whole: usize)
    ensures
        final(out)@ == old(out)@ + out_of(label@, part as int, whole as int),
{
    push_str(out, label);
    push_str(out, decimal_string(part as u128).as_str());
    push_str(out, "/");
    push_str(out, decimal_string(whole as u128).as_str());
    assert(out@ =~= old(out)@ + out_of(label@, part as int, whole as int));
}

fn push_window(out: &mut Vec<char>, group: &FacetGroup)
    ensures
        final(out)@ == old(out)@ + window_summary(group@),
{
    push_out_of(out, "win=", group.window_records, group.available_records);
    if group.window_truncated {
        push_str(out, " clipped");
    }
    assert(out@ =~= old(out)@ + window_summary(group@));
}

fn push_buckets(out: &mut Vec<char>, label: &str, groups: &Vec<FacetGroup>, kind: FacetKind)
    ensures
        final(out)@ == old(out)@ + bucket_summary(label@, text::views(groups@), kind),
{
    match facet_group(groups, kind) {
        Some(group) => {
            assert(group@.buckets.len() == group.buckets@.len());
            push_out_of(out, label, group.buckets.len(), group.total_buckets);
        },
        None => {
            push_out_of(out, label, 0, 0);
        },
    }
}

/// The facets in one line.
pub fn facet_root_summary(groups: &Vec<FacetGroup>) -> (result: String)
    ensures
        result@ == root_summary(text::views(groups@)),
{
    if groups.len() == 0 {
        return String::new();
    }
    let mut out: Vec<char> = Vec::new();
    push_window(&mut out, &groups[0]);
    assert(out@ =~= window_summary(groups@[0]@));
    push_buckets(&mut out, " src=", groups, FacetKind::Source);
    push_buckets(&mut out, " lvl=", groups, FacetKind::Level);
    push_buckets(&mut out, " key=", groups, FacetKind::PropertyKey);
    string_of(out.as_slice())
}

/// The values of a property in one line.
pub fn facet_value_summary(group: &FacetGroup, property_key: &str) -> (result: String)
    ensures
        result@ == value_summary(group@, property_key@),
{
    let mut out: Vec<char> = Vec::new();
    push_window(&mut out, group);
    assert(out@ =~= window_summary(group@));
    assert(group@.buckets.len() == group.buckets@.len());
    push_out_of(&mut out, " val=", group.buckets.len(), group.total_buckets);
    push_str(&mut out, " key=");
    let room: usize = MAX_SUMMARY_CHARS.saturating_sub(out.len());
    let escaped = escape_facet_text(property_key);
    push_str(&mut out, truncate_tail(escaped.as_str(), room).as_str());
    string_of(out.as_slice())
}

/// The summary of a property's values fits its line, where its counts do.
pub proof fn law_value_summary_fits(group: GroupView, key: Seq<char>)
    requires
        value_summary_head(group).len() <= MAX_SUMMARY_CHARS,
    ensures
        value_summary(group, key).len() <= MAX_SUMMARY_CHARS,
{
    ui::text::law_cut_text_fits(
        escape::escape(key),
        MAX_SUMMARY_CHARS - value_summary_head(group).len(),
    );
}

} // verus!
