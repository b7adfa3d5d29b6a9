//! Which events are shown.
pub mod laws;
pub mod workflow;

use crate::model::{self, EventView, Level, LogEvent};
use crate::text;
use crate::text::{
    chars_contains_ignore_case, chars_of, chars_skip, chars_split_once, chars_strip_first,
    chars_take, chars_trim, concat, concat3, copy_opt, opt_same, same, string_of,
};
use vstd::prelude::*;

verus! {

broadcast use text::lemma_views_push;

// ---------------------------------------------------------------------------
// Predicates
// ---------------------------------------------------------------------------

/// A condition on one property: that it is there, or that it shows a value.
#[derive(Debug, PartialEq, Eq)]
pub struct PropertyPredicate {
    pub key: String,
    pub value: Option<String>,
}

/// What a predicate is.
pub struct PredicateView {
    pub key: Seq<char>,
    pub value: Option<Seq<char>>,
}

impl View for PropertyPredicate {
    type V = PredicateView;

    open spec fn view(&self) -> PredicateView {
        PredicateView { key: self.key@, value: text::opt_view(self.value) }
    }
}

impl PredicateView {
    /// Whether an event meets the condition.
    pub open spec fn matches(self, event: EventView) -> bool {
        match model::property_value(event.properties, self.key) {
            None => false,
            Some(shown) => match self.value {
                None => true,
                Some(value) => shown.display() == value,
            },
        }
    }

    /// The condition as it is shown and typed.
    pub open spec fn summary(self, exclude: bool) -> Seq<char> {
        match self.value {
            Some(value) => if exclude {
                self.key + "!="@ + value
            } else {
                self.key + "="@ + value
            },
            None => if exclude {
                "!"@ + self.key
            } else {
                self.key
            },
        }
    }
}

impl Clone for PropertyPredicate {
    fn clone(&self) -> (result: Self)
        ensures
            result == *self,
    {
        PropertyPredicate { key: self.key.clone(), value: copy_opt(&self.value) }
    }
}

impl PropertyPredicate {
    /// The condition that a property shows a value.
    pub fn exact(key: String, value: String) -> (result: Self)
        ensures
            result@ == (PredicateView { key: key@, value: Some(value@) }),
    {
        PropertyPredicate { key, value: Some(value) }
    }

    /// The condition that a property is there.
    pub fn present(key: String) -> (result: Self)
        ensures
            result@ == (PredicateView { key: key@, value: None }),
    {
        PropertyPredicate { key, value: None }
    }

    /// Whether an event meets the condition.
    pub fn matches(&self, event: &LogEvent) -> (result: bool)
        ensures
            result == self@.matches(event@),
    {
        match event.property(self.key.as_str()) {
            None => false,
            Some(property) => match &self.value {
                None => true,
                Some(value) => same(property.value.as_display_str(), value.as_str()),
            },
        }
    }

    /// The condition as it is shown where it lets events in.
    pub fn summary(&self) -> (result: String)
        ensures
            result@ == self@.summary(false),
    {
        match &self.value {
            Some(value) => concat3(self.key.as_str(), "=", value.as_str()),
            None => self.key.clone(),
        }
    }

    /// The condition as it is shown where it keeps events out.
    pub fn exclude_summary(&self) -> (result: String)
        ensures
            result@ == self@.summary(true),
    {
        match &self.value {
            Some(value) => concat3(self.key.as_str(), "!=", value.as_str()),
            None => concat("!", self.key.as_str()),
        }
    }

    /// The condition as it is shown.
    pub fn summary_for(&self, exclude: bool) -> (result: String)
        ensures
            result@ == self@.summary(exclude),
    {
        if exclude {
            self.exclude_summary()
        } else {
            self.summary()
        }
    }

    /// Whether two conditions are the same.
    pub fn same_as(&self, other: &Self) -> (result: bool)
        ensures
            result == (self@ == other@),
    {
        same(self.key.as_str(), other.key.as_str()) && opt_same(&self.value, &other.value)
    }
}

/// A condition to add, and whether it keeps events out.
#[derive(Debug, PartialEq, Eq)]
pub struct PropertyFilterUpdate {
    pub exclude: bool,
    pub predicate: PropertyPredicate,
}

/// What an update is.
pub struct UpdateView {
    pub exclude: bool,
    pub predicate: PredicateView,
}

impl View for PropertyFilterUpdate {
    type V = UpdateView;

    open spec fn view(&self) -> UpdateView {
        UpdateView { exclude: self.exclude, predicate: self.predicate@ }
    }
}

/// The place of a condition.
#[derive(Debug, Clone, Copy, PartialEq, Eq, Structural)]
pub struct PropertyFilterId {
    pub exclude: bool,
    pub index: usize,
}

/// The index of the first `!=`, or the length.
pub open spec fn unequal_index(s: Seq<char>) -> int
    decreases s.len(),
{
    if s.len() == 0 || (s.len() > 1 && s[0] == '!' && s[1] == '=') {
        0
    } else {
        1 + unequal_index(s.drop_first())
    }
}

/// A typed value without white space and one pair of quotation marks round it.
pub open spec fn typed_value(s: Seq<char>) -> Seq<char> {
    let t = text::trim(s);
    if t.len() >= 2 && ((t[0] == '"' && t.last() == '"') || (t[0] == '\'' && t.last() == '\'')) {
        t.subrange(1, t.len() - 1)
    } else {
        t
    }
}

/// The condition that a property shows a typed value.
pub open spec fn typed_exact(key: Seq<char>, value: Seq<char>, exclude: bool) -> Option<
    UpdateView,
> {
    if text::trim(key).len() == 0 {
        None
    } else {
        Some(
            UpdateView {
                exclude,
                predicate: PredicateView {
                    key: text::trim(key),
                    value: Some(typed_value(text::trim(value))),
                },
            },
        )
    }
}

/// The condition that a text types: `key=value`, `key!=value`, `key` or `!key`.
pub open spec fn typed_update(input: Seq<char>, default_exclude: bool) -> Option<UpdateView> {
    let t = text::trim(input);
    let unequal = unequal_index(t);
    if t.len() == 0 {
        None
    } else if unequal < t.len() {
        typed_exact(t.take(unequal), t.skip(unequal + 2), true)
    } else {
        match text::split_once(t, '=') {
            Some((key, value)) => typed_exact(key, value, default_exclude),
            None => match text::strip_first(t, '!') {
                Some(rest) => if text::trim(rest).len() == 0 {
                    None
                } else {
                    Some(
                        UpdateView {
                            exclude: true,
                            predicate: PredicateView { key: text::trim(rest), value: None },
                        },
                    )
                },
                None => Some(
                    UpdateView {
                        exclude: default_exclude,
                        predicate: PredicateView { key: t, value: None },
                    },
                ),
            },
        }
    }
}

fn find_unequal(s: &[char]) -> (result: usize)
    ensures
        result == unequal_index(s@),
        result <= s@.len(),
        result < s@.len() ==> result + 2 <= s@.len(),
{
    let mut i: usize = 0;
    assert(s@.skip(0) =~= s@);
    while i < s.len()
        invariant
            i <= s@.len(),
            unequal_index(s@) == i + unequal_index(s@.skip(i as int)),
        decreases s@.len() - i,
    {
        if s.len() - i > 1 && s[i] == '!' && s[i + 1] == '=' {
            return i;
        }
        assert(s@.skip(i as int).drop_first() =~= s@.skip(i + 1));
        i += 1;
    }
    i
}

fn normalize_filter_value(s: &[char]) -> (result: String)
    ensures
        result@ == typed_value(s@),
{
    let t = chars_trim(s);
    if t.len() >= 2 {
        let first = t[0];
        let last = t[t.len() - 1];
        if (first == '"' && last == '"') || (first == '\'' && last == '\'') {
            return string_of(vstd::slice::slice_subrange(t, 1, t.len() - 1));
        }
    }
    string_of(t)
}

fn property_exact(key: &[char], value: &[char], exclude: bool) -> (result: Option<
    PropertyFilterUpdate,
>)
    ensures
        text::opt_view(result) == typed_exact(key@, value@, exclude),
{
    let key = chars_trim(key);
    let value = normalize_filter_value(chars_trim(value));
    if key.len() == 0 {
        None
    } else {
        Some(
            PropertyFilterUpdate {
                exclude,
                predicate: PropertyPredicate::exact(string_of(key), value),
            },
        )
    }
}

impl PropertyFilterUpdate {
    /// Reads a typed condition.
    pub fn parse(input: &str, default_exclude: bool) -> (result: Option<Self>)
        ensures
            text::opt_view(result) == typed_update(input@, default_exclude),
    {
        let chars = chars_of(input);
        let t = chars_trim(chars.as_slice());
        if t.len() == 0 {
            return None;
        }
        let unequal = find_unequal(t);
        if unequal < t.len() {
            return property_exact(chars_take(t, unequal), chars_skip(t, unequal + 2), true);
        }
        match chars_split_once(t, '=') {
            Some((key, value)) => {
                return property_exact(key, value, default_exclude);
            },
            None => {},
        }
        match chars_strip_first(t, '!') {
            Some(rest) => {
                let key = chars_trim(rest);
                if key.len() == 0 {
                    None
                } else {
                    Some(
                        PropertyFilterUpdate {
                            exclude: true,
                            predicate: PropertyPredicate::present(string_of(key)),
                        },
                    )
                }
            },
            None => Some(
                PropertyFilterUpdate {
                    exclude: default_exclude,
                    predicate: PropertyPredicate::present(string_of(t)),
                },
            ),
        }
    }
}

// ---------------------------------------------------------------------------
// Text in events
// ---------------------------------------------------------------------------

/// Whether a text contains another up to ASCII case.
pub fn contains_ignore_ascii_case(haystack: &str, needle: &str) -> (result: bool)
    ensures
        result == text::contains_ignore_case(haystack@, needle@),
{
    chars_contains_ignore_case(chars_of(haystack).as_slice(), chars_of(needle).as_slice())
}

/// Whether an event contains a text, in its line, its message, its source or
/// its properties.
pub open spec fn event_mentions(event: EventView, query: Seq<char>) -> bool {
    ||| text::contains_ignore_case(event.raw, query)
    ||| text::contains_ignore_case(event.message, query)
    ||| text::contains_ignore_case(event.source, query)
    ||| exists|i: int|
        0 <= i < event.properties.len() && (text::contains_ignore_case(
            (#[trigger] event.properties[i]).key,
            query,
        ) || text::contains_ignore_case(event.properties[i].value.display(), query))
}

/// Whether an event contains a text.
pub fn event_contains(event: &LogEvent, query: &str) -> (result: bool)
    ensures
        result == event_mentions(event@, query@),
{
    if contains_ignore_ascii_case(event.raw.as_str(), query) || contains_ignore_ascii_case(
        event.message.as_str(),
        query,
    ) || contains_ignore_ascii_case(event.source.as_str(), query) {
        return true;
    }
    let mut i: usize = 0;
    while i < event.properties.len()
        invariant
            i <= event.properties@.len(),
            forall|j: int|
                0 <= j < i ==> !(text::contains_ignore_case(
                    (#[trigger] event@.properties[j]).key,
                    query@,
                ) || text::contains_ignore_case(event@.properties[j].value.display(), query@)),
        decreases event.properties@.len() - i,
    {
        let property = &event.properties[i];
        assert(event@.properties[i as int] == property@);
        if contains_ignore_ascii_case(property.key.as_str(), query) || contains_ignore_ascii_case(
            property.value.as_display_str(),
            query,
        ) {
            return true;
        }
        i += 1;
    }
    false
}

// ---------------------------------------------------------------------------
// Filters
// ---------------------------------------------------------------------------

/// The conditions that an event has to meet to be shown.
#[derive(Debug, PartialEq, Eq)]
pub struct LogFilter {
    pub text: Option<String>,
    pub source: Option<String>,
    pub level: Option<Level>,
    pub property_includes: Vec<PropertyPredicate>,
    pub property_excludes: Vec<PropertyPredicate>,
}

/// What a filter is.
pub struct FilterView {
    pub text: Option<Seq<char>>,
    pub source: Option<Seq<char>>,
    pub level: Option<Level>,
    pub includes: Seq<PredicateView>,
    pub excludes: Seq<PredicateView>,
}

impl View for LogFilter {
    type V = FilterView;

    open spec fn view(&self) -> FilterView {
        FilterView {
            text: text::opt_view(self.text),
            source: text::opt_view(self.source),
            level: self.level,
            includes: text::views(self.property_includes@),
            excludes: text::views(self.property_excludes@),
        }
    }
}

/// The filter without conditions.
pub open spec fn no_filter() -> FilterView {
    FilterView {
        text: None,
        source: None,
        level: None,
        includes: Seq::empty(),
        excludes: Seq::empty(),
    }
}

/// Whether a typed text is there and not empty.
pub open spec fn is_set(value: Option<Seq<char>>) -> bool {
    match value {
        Some(value) => value.len() > 0,
        None => false,
    }
}

/// The conditions without those on a property.
pub open spec fn predicates_without(predicates: Seq<PredicateView>, key: Seq<char>) -> Seq<
    PredicateView,
>
    decreases predicates.len(),
{
    if predicates.len() == 0 {
        predicates
    } else if predicates.last().key == key {
        predicates_without(predicates.drop_last(), key)
    } else {
        predicates_without(predicates.drop_last(), key).push(predicates.last())
    }
}

/// The values of conditions that show one.
pub open spec fn shown_values(predicates: Seq<PredicateView>) -> Seq<Seq<char>>
    decreases predicates.len(),
{
    if predicates.len() == 0 {
        Seq::empty()
    } else if is_set(predicates.last().value) {
        shown_values(predicates.drop_last()).push(predicates.last().value->0)
    } else {
        shown_values(predicates.drop_last())
    }
}

impl FilterView {
    /// Whether the filter keeps any event out.
    pub open spec fn active(self) -> bool {
        ||| is_set(self.text)
        ||| is_set(self.source)
        ||| self.level is Some
        ||| self.includes.len() > 0
        ||| self.excludes.len() > 0
    }

    /// Whether an event is shown.
    pub open spec fn matches(self, event: EventView) -> bool {
        &&& is_set(self.text) ==> event_mentions(event, self.text->0)
        &&& is_set(self.source) ==> text::eq_ignore_case(event.source, self.source->0)
        &&& self.level is Some ==> event.level == self.level->0
        &&& forall|i: int|
            0 <= i < self.includes.len() ==> (#[trigger] self.includes[i]).matches(event)
        &&& forall|i: int|
            0 <= i < self.excludes.len() ==> !(#[trigger] self.excludes[i]).matches(event)
    }

    /// The conditions of one side.
    pub open spec fn side(self, exclude: bool) -> Seq<PredicateView> {
        if exclude {
            self.excludes
        } else {
            self.includes
        }
    }

    /// The filter with other conditions on one side.
    pub open spec fn with_side(self, exclude: bool, predicates: Seq<PredicateView>) -> FilterView {
        if exclude {
            FilterView { excludes: predicates, ..self }
        } else {
            FilterView { includes: predicates, ..self }
        }
    }

    /// The filter with a condition, unless it is there already.
    pub open spec fn added(self, update: UpdateView) -> FilterView {
        let side = self.side(update.exclude);
        if side.contains(update.predicate) {
            self
        } else {
            self.with_side(update.exclude, side.push(update.predicate))
        }
    }

    /// The condition at a place.
    pub open spec fn predicate_at(self, id: PropertyFilterId) -> Option<PredicateView> {
        let side = self.side(id.exclude);
        if id.index < side.len() {
            Some(side[id.index as int])
        } else {
            None
        }
    }

    /// The filter without the condition at a place.
    pub open spec fn removed(self, id: PropertyFilterId) -> FilterView {
        let side = self.side(id.exclude);
        if id.index < side.len() {
            self.with_side(id.exclude, side.remove(id.index as int))
        } else {
            self
        }
    }

    /// The filter without its condition on the source.
    pub open spec fn sourceless(self) -> FilterView {
        FilterView { source: None, ..self }
    }

    /// The filter without its condition on the level.
    pub open spec fn levelless(self) -> FilterView {
        FilterView { level: None, ..self }
    }

    /// The filter without its conditions on a property.
    pub open spec fn keyless(self, key: Seq<char>) -> FilterView {
        FilterView {
            includes: predicates_without(self.includes, key),
            excludes: predicates_without(self.excludes, key),
            ..self
        }
    }
}

/// Copies conditions.
pub fn copy_predicates(items: &Vec<PropertyPredicate>) -> (result: Vec<PropertyPredicate>)
    ensures
        result@ == items@,
{
    let mut result: Vec<PropertyPredicate> = Vec::new();
    let mut i: usize = 0;
    while i < items.len()
        invariant
            i <= items@.len(),
            result@ == items@.take(i as int),
        decreases items@.len() - i,
    {
        result.push(items[i].clone());
        i += 1;
        assert(items@.take(i as int) =~= items@.take(i - 1).push(items@[i - 1]));
    }
    assert(items@.take(items@.len() as int) =~= items@);
    result
}

/// Whether two lists hold the same conditions in the same order.
pub fn same_predicates(left: &Vec<PropertyPredicate>, right: &Vec<PropertyPredicate>) -> (result:
    bool)
    ensures
        result == (text::views(left@) == text::views(right@)),
{
    if left.len() != right.len() {
        assert(text::views(left@).len() != text::views(right@).len());
        return false;
    }
    let mut i: usize = 0;
    while i < left.len()
        invariant
            i <= left@.len(),
            left@.len() == right@.len(),
            forall|j: int| 0 <= j < i ==> (#[trigger] left@[j])@ == right@[j]@,
        decreases left@.len() - i,
    {
        if !left[i].same_as(&right[i]) {
            assert(text::views(left@)[i as int] != text::views(right@)[i as int]);
            return false;
        }
        i += 1;
    }
    assert(text::views(left@) =~= text::views(right@));
    true
}

/// The position of a condition, or the number of conditions.
fn contains_predicate(items: &Vec<PropertyPredicate>, wanted: &PropertyPredicate) -> (result: bool)
    ensures
        result == text::views(items@).contains(wanted@),
{
    let mut i: usize = 0;
    while i < items.len()
        invariant
            i <= items@.len(),
            forall|j: int| 0 <= j < i ==> (#[trigger] items@[j])@ != wanted@,
        decreases items@.len() - i,
    {
        if items[i].same_as(wanted) {
            assert(text::views(items@)[i as int] == wanted@);
            return true;
        }
        i += 1;
    }
    assert forall|j: int| 0 <= j < text::views(items@).len() implies text::views(items@)[j]
        != wanted@ by {
        assert(items@[j]@ != wanted@);
    }
    false
}

fn add_predicate(items: &mut Vec<PropertyPredicate>, predicate: PropertyPredicate)
    ensures
        text::views(final(items)@) == if text::views(old(items)@).contains(predicate@) {
            text::views(old(items)@)
        } else {
            text::views(old(items)@).push(predicate@)
        },
{
    if !contains_predicate(items, &predicate) {
        items.push(predicate);
    }
}

fn take_predicate(items: &mut Vec<PropertyPredicate>, index: usize) -> (result: Option<
    PropertyPredicate,
>)
    ensures
        text::opt_view(result) == if index < old(items)@.len() {
            Some(text::views(old(items)@)[index as int])
        } else {
            None
        },
        text::views(final(items)@) == if index < old(items)@.len() {
            text::views(old(items)@).remove(index as int)
        } else {
            text::views(old(items)@)
        },
{
    if index < items.len() {
        let taken = items.remove(index);
        assert(text::views(items@) =~= text::views(old(items)@).remove(index as int));
        Some(taken)
    } else {
        None
    }
}

/// Drops the conditions on a property.
pub fn drop_key(items: &Vec<PropertyPredicate>, key: &str) -> (result: Vec<PropertyPredicate>)
    ensures
        text::views(result@) == predicates_without(text::views(items@), key@),
{
    let ghost all = text::views(items@);
    let mut result: Vec<PropertyPredicate> = Vec::new();
    let mut i: usize = 0;
    assert(text::views(result@) =~= all.take(0));
    while i < items.len()
        invariant
            i <= items@.len(),
            all == text::views(items@),
            text::views(result@) == predicates_without(all.take(i as int), key@),
        decreases items@.len() - i,
    {
        assert(all.take(i + 1).drop_last() =~= all.take(i as int));
        if !same(items[i].key.as_str(), key) {
            result.push(items[i].clone());
        }
        i += 1;
    }
    assert(all.take(i as int) =~= all);
    result
}

/// The views of a list of string slices.
pub open spec fn str_views(items: Seq<&str>) -> Seq<Seq<char>> {
    Seq::new(items.len(), |i: int| items[i]@)
}

impl Clone for LogFilter {
    fn clone(&self) -> (result: Self)
        ensures
            result@ == self@,
    {
        LogFilter {
            text: copy_opt(&self.text),
            source: copy_opt(&self.source),
            level: self.level,
            property_includes: copy_predicates(&self.property_includes),
            property_excludes: copy_predicates(&self.property_excludes),
        }
    }
}

impl Default for LogFilter {
    fn default() -> (result: Self)
        ensures
            result@ == no_filter(),
    {
        let result = LogFilter {
            text: None,
            source: None,
            level: None,
            property_includes: Vec::new(),
            property_excludes: Vec::new(),
        };
        assert(result@.includes =~= Seq::<PredicateView>::empty());
        assert(result@.excludes =~= Seq::<PredicateView>::empty());
        result
    }
}

/// Whether a typed text is there and not empty.
pub fn opt_is_set(value: &Option<String>) -> (result: bool)
    ensures
        result == is_set(text::opt_view(*value)),
{
    match value {
        Some(value) => !value.as_str().is_empty(),
        None => false,
    }
}

impl LogFilter {
    /// Whether the filter keeps any event out.
    pub fn has_active_filters(&self) -> (result: bool)
        ensures
            result == self@.active(),
    {
        opt_is_set(&self.text) || opt_is_set(&self.source) || self.level.is_some()
            || self.property_includes.len() > 0 || self.property_excludes.len() > 0
    }

    /// Whether an event is shown.
    pub fn matches(&self, event: &LogEvent) -> (result: bool)
        ensures
            result == self@.matches(event@),
    {
        self.matches_text(event) && self.matches_source(event) && self.matches_level(event)
            && self.matches_property_filters(event)
    }

    fn matches_text(&self, event: &LogEvent) -> (result: bool)
        ensures
            result == (is_set(self@.text) ==> event_mentions(event@, self@.text->0)),
    {
        match &self.text {
            Some(query) => query.as_str().is_empty() || event_contains(event, query.as_str()),
            None => true,
        }
    }

    fn matches_source(&self, event: &LogEvent) -> (result: bool)
        ensures
            result == (is_set(self@.source) ==> text::eq_ignore_case(
                event@.source,
                self@.source->0,
            )),
    {
        match &self.source {
            Some(source) => source.as_str().is_empty() || text::chars_eq_ignore_case(
                chars_of(event.source.as_str()).as_slice(),
                source.as_str(),
            ),
            None => true,
        }
    }

    fn matches_level(&self, event: &LogEvent) -> (result: bool)
        ensures
            result == (self@.level is Some ==> event@.level == self@.level->0),
    {
        match self.level {
            Some(level) => event.level == level,
            None => true,
        }
    }

    fn matches_property_filters(&self, event: &LogEvent) -> (result: bool)
        ensures
            result == ((forall|i: int|
                0 <= i < self@.includes.len() ==> (#[trigger] self@.includes[i]).matches(event@))
                && (forall|i: int|
                0 <= i < self@.excludes.len() ==> !(#[trigger] self@.excludes[i]).matches(event@))),
    {
        let mut i: usize = 0;
        while i < self.property_includes.len()
            invariant
                i <= self.property_includes@.len(),
                forall|j: int| 0 <= j < i ==> (#[trigger] self@.includes[j]).matches(event@),
            decreases self.property_includes@.len() - i,
        {
            assert(self@.includes[i as int] == self.property_includes@[i as int]@);
            if !self.property_includes[i].matches(event) {
                return false;
            }
            i += 1;
        }
        let mut k: usize = 0;
        while k < self.property_excludes.len()
            invariant
                k <= self.property_excludes@.len(),
                forall|j: int| 0 <= j < k ==> !(#[trigger] self@.excludes[j]).matches(event@),
            decreases self.property_excludes@.len() - k,
        {
            assert(self@.excludes[k as int] == self.property_excludes@[k as int]@);
            if self.property_excludes[k].matches(event) {
                return false;
            }
            k += 1;
        }
        true
    }

    /// Drops every condition.
    pub fn clear(&mut self)
        ensures
            final(self)@ == no_filter(),
    {
        self.text = None;
        self.source = None;
        self.level = None;
        self.property_includes.clear();
        self.property_excludes.clear();
        assert(self@.includes =~= Seq::<PredicateView>::empty());
        assert(self@.excludes =~= Seq::<PredicateView>::empty());
    }

    /// Adds a condition, unless it is there already.
    pub fn add_property_filter(&mut self, update: PropertyFilterUpdate)
        ensures
            final(self)@ == old(self)@.added(update@),
    {
        if update.exclude {
            add_predicate(&mut self.property_excludes, update.predicate);
        } else {
            add_predicate(&mut self.property_includes, update.predicate);
        }
    }

    /// The condition at a place.
    pub fn property_filter(&self, id: PropertyFilterId) -> (result: Option<&PropertyPredicate>)
        ensures
            match result {
                Some(predicate) => self@.predicate_at(id) == Some(predicate@),
                None => self@.predicate_at(id) is None,
            },
    {
        let side = if id.exclude {
            &self.property_excludes
        } else {
            &self.property_includes
        };
        if id.index < side.len() {
            Some(&side[id.index])
        } else {
            None
        }
    }

    /// Takes the condition at a place out.
    pub fn remove_property_filter(&mut self, id: PropertyFilterId) -> (result: Option<
        PropertyPredicate,
    >)
        ensures
            text::opt_view(result) == old(self)@.predicate_at(id),
            final(self)@ == old(self)@.removed(id),
    {
        if id.exclude {
            take_predicate(&mut self.property_excludes, id.index)
        } else {
            take_predicate(&mut self.property_includes, id.index)
        }
    }

    /// Puts a condition in the place of another.
    pub fn replace_property_filter(
        &mut self,
        id: PropertyFilterId,
        update: PropertyFilterUpdate,
    ) -> (result: bool)
        ensures
            result == (old(self)@.predicate_at(id) is Some),
            final(self)@ == if result {
                old(self)@.removed(id).added(update@)
            } else {
                old(self)@
            },
    {
        match self.remove_property_filter(id) {
            None => false,
            Some(_) => {
                self.add_property_filter(update);
                true
            },
        }
    }

    /// The values that conditions show, to be highlighted.
    pub fn property_highlight_values(&self) -> (result: Vec<&str>)
        ensures
            str_views(result@) == shown_values(self@.includes + self@.excludes),
    {
        let mut values: Vec<&str> = Vec::new();
        let ghost all = self@.includes + self@.excludes;
        let total_includes: usize = self.property_includes.len();
        let mut i: usize = 0;
        assert(str_views(values@) =~= shown_values(all.take(0)));
        while i < total_includes
            invariant
                total_includes == self.property_includes@.len(),
                i <= total_includes,
                all == self@.includes + self@.excludes,
                str_views(values@) == shown_values(all.take(i as int)),
            decreases total_includes - i,
        {
            let ghost before = values@;
            assert(all.take(i + 1).drop_last() =~= all.take(i as int));
            assert(all[i as int] == self.property_includes@[i as int]@);
            match &self.property_includes[i].value {
                Some(value) => {
                    if !value.as_str().is_empty() {
                        values.push(value.as_str());
                        assert(str_views(values@) =~= str_views(before).push(value@));
                    }
                },
                None => {},
            }
            i += 1;
        }
        let mut k: usize = 0;
        while k < self.property_excludes.len()
            invariant
                total_includes == self.property_includes@.len(),
                k <= self.property_excludes@.len(),
                all == self@.includes + self@.excludes,
                str_views(values@) == shown_values(all.take(total_includes + k)),
            decreases self.property_excludes@.len() - k,
        {
            let ghost before = values@;
            let ghost at = total_includes + k;
            assert(all.take(at + 1).drop_last() =~= all.take(at));
            assert(all[at] == self.property_excludes@[k as int]@);
            match &self.property_excludes[k].value {
                Some(value) => {
                    if !value.as_str().is_empty() {
                        values.push(value.as_str());
                        assert(str_views(values@) =~= str_views(before).push(value@));
                    }
                },
                None => {},
            }
            k += 1;
        }
        assert(all.take(all.len() as int) =~= all);
        values
    }

    /// The filter without its condition on the source.
    pub fn without_source(&self) -> (result: Self)
        ensures
            result@ == self@.sourceless(),
    {
        let mut result = self.clone();
        result.source = None;
        result
    }

    /// The filter without its condition on the level.
    pub fn without_level(&self) -> (result: Self)
        ensures
            result@ == self@.levelless(),
    {
        let mut result = self.clone();
        result.level = None;
        result
    }

    /// The filter without its conditions on a property.
    pub fn without_property_key(&self, key: &str) -> (result: Self)
        ensures
            result@ == self@.keyless(key@),
    {
        LogFilter {
            text: copy_opt(&self.text),
            source: copy_opt(&self.source),
            level: self.level,
            property_includes: drop_key(&self.property_includes, key),
            property_excludes: drop_key(&self.property_excludes, key),
        }
    }

    /// Whether two filters are the same.
    pub fn same_as(&self, other: &Self) -> (result: bool)
        ensures
            result == (self@ == other@),
    {
        let same_level = match (self.level, other.level) {
            (Some(left), Some(right)) => left == right,
            (None, None) => true,
            _ => false,
        };
        same_level && opt_same(&self.text, &other.text) && opt_same(&self.source, &other.source)
            && same_predicates(&self.property_includes, &other.property_includes)
            && same_predicates(&self.property_excludes, &other.property_excludes)
    }
}

// ---------------------------------------------------------------------------
// Laws
// ---------------------------------------------------------------------------

/// A filter that is not active shows every event.
pub proof fn law_inactive_filter_shows_all(filter: FilterView, event: EventView)
    requires
        !filter.active(),
    ensures
        filter.matches(event),
{
}

/// Adding a condition twice is adding it once.
pub proof fn law_adding_is_idempotent(filter: FilterView, update: UpdateView)
    ensures
        filter.added(update).added(update) == filter.added(update),
        filter.added(update).side(update.exclude).contains(update.predicate),
{
    let side = filter.side(update.exclude);
    if !side.contains(update.predicate) {
        assert(side.push(update.predicate)[side.len() as int] == update.predicate);
    }
}

/// A further condition only narrows what is shown.
pub proof fn law_adding_narrows(filter: FilterView, update: UpdateView, event: EventView)
    requires
        filter.added(update).matches(event),
    ensures
        filter.matches(event),
        update.predicate.matches(event) == !update.exclude,
{
    let after = filter.added(update);
    law_adding_is_idempotent(filter, update);
    let side = after.side(update.exclude);
    let k = choose|k: int| 0 <= k < side.len() && side[k] == update.predicate;
    assert(side[k] == update.predicate);
    assert forall|i: int| 0 <= i < filter.includes.len() implies (
    #[trigger] filter.includes[i]).matches(event) by {
        assert(after.includes[i] == filter.includes[i]);
    }
    assert forall|i: int| 0 <= i < filter.excludes.len() implies !(
    #[trigger] filter.excludes[i]).matches(event) by {
        assert(after.excludes[i] == filter.excludes[i]);
    }
}

/// Whether a condition can be typed as it is shown: its key reads as a key, and
/// its value as a value.
pub open spec fn is_typeable(update: UpdateView) -> bool {
    let key = update.predicate.key;
    let shown = update.predicate.summary(update.exclude);
    &&& key.len() > 0
    &&& text::trim(key) == key
    &&& match update.predicate.value {
        Some(value) => {
            &&& typed_value(value) == value
            &&& if update.exclude {
                unequal_index(shown) == key.len()
            } else {
                !key.contains('=') && unequal_index(shown) == shown.len()
            }
        },
        None => !key.contains('=') && (update.exclude || key[0] != '!'),
    }
}

/// What a condition is shown as, typed, is the condition: to edit a condition
/// and to change nothing leaves it as it was.
pub proof fn law_shown_condition_reads_back(update: UpdateView)
    requires
        is_typeable(update),
    ensures
        typed_update(update.predicate.summary(update.exclude), false) == Some(update),
{
    let key = update.predicate.key;
    let shown = update.predicate.summary(update.exclude);
    reveal_strlit("=");
    reveal_strlit("!=");
    reveal_strlit("!");
    lemma_tight(key);
    lemma_unequal(shown);
    text::lemma_index_of(shown, '=');
    match update.predicate.value {
        Some(value) => {
            lemma_tight(value);
            assert(!text::is_space(shown[0]));
            assert(!text::is_space(shown.last()));
            assert(text::trim(shown) == shown);
            if update.exclude {
                assert(shown.take(key.len() as int) =~= key);
                assert(shown.skip(key.len() as int + 2) =~= value);
            } else {
                assert(shown[key.len() as int] == '=');
                let i = text::index_of(shown, '=');
                if i < key.len() {
                    assert(key[i] == '=');
                }
                assert(i == key.len());
                assert(shown.take(i) =~= key);
                assert(shown.skip(i + 1) =~= value);
            }
        },
        None => {
            let u = unequal_index(shown);
            let i = text::index_of(shown, '=');
            assert(text::trim(shown) == shown);
            if update.exclude {
                assert(shown.drop_first() =~= key);
                assert(shown.skip(1) =~= key);
                if u < shown.len() {
                    assert(key[u] == '=');
                }
                if i < shown.len() {
                    assert(key[i - 1] == '=');
                }
            } else {
                if u < shown.len() {
                    assert(key[u + 1] == '=');
                }
                if i < shown.len() {
                    assert(key[i] == '=');
                }
            }
        },
    }
}

proof fn lemma_tight(s: Seq<char>)
    ensures
        s.len() > 0 && (text::trim(s) == s || typed_value(s) == s) ==> !text::is_space(s[0])
            && !text::is_space(s.last()),
        typed_value(s) == s ==> text::trim(s) == s,
{
    text::lemma_trim_bounds(s);
    if s.len() > 0 {
        text::lemma_trim_bounds(s.drop_first());
        text::lemma_trim_bounds(s.drop_last());
    }
}

pub proof fn lemma_unequal(s: Seq<char>)
    ensures
        0 <= unequal_index(s) <= s.len(),
        unequal_index(s) < s.len() ==> unequal_index(s) + 1 < s.len() && s[unequal_index(s)] == '!'
            && s[unequal_index(s) + 1] == '=',
    decreases s.len(),
{
    if s.len() > 0 {
        lemma_unequal(s.drop_first());
    }
}

} // verus!
