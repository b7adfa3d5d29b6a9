//! Facets: how the events of a window divide by source, level and properties.
pub mod escape;
pub mod laws;
pub mod tally;

use crate::facet::tally::{rank, Kinds, RunView, Sample, SampleView};
use crate::filter::{FilterView, LogFilter};
use crate::model::{
    self, EventView, Level, LogEvent, LogProperty, PropertyValue, PropertyView, ValueView,
};
use crate::text;
use crate::text::number::decimal_string;
use crate::text::{char_lower, chars_of, chars_trim, concat3, copy_str, string_of};
use std::collections::VecDeque;
use vstd::prelude::*;

verus! {

broadcast use text::lemma_views_push;

/// The fewest events of a window.
pub const MIN_FACET_RECORD_LIMIT: usize = 1;

/// The events of a window where no number is given.
pub const DEFAULT_FACET_RECORD_LIMIT: usize = 10000;

/// The most events of a window.
pub const MAX_FACET_RECORD_LIMIT: usize = 100000;

/// The fewest buckets of a facet.
pub const MIN_FACET_BUCKET_LIMIT: usize = 1;

/// The buckets of a facet where no number is given.
pub const DEFAULT_FACET_BUCKET_LIMIT: usize = 20;

/// The most buckets of a facet.
pub const MAX_FACET_BUCKET_LIMIT: usize = 100;

// ---------------------------------------------------------------------------
// Kinds and types
// ---------------------------------------------------------------------------

/// What a facet divides events by.
#[non_exhaustive]
#[derive(Debug, Clone, Copy, PartialEq, Eq, Structural)]
pub enum FacetKind {
    Source,
    Level,
    PropertyKey,
    PropertyValue,
}

/// The name of a kind of facet.
pub open spec fn kind_name(kind: FacetKind) -> Seq<char> {
    match kind {
        FacetKind::Source => "source"@,
        FacetKind::Level => "level"@,
        FacetKind::PropertyKey => "property_key"@,
        FacetKind::PropertyValue => "property_value"@,
    }
}

impl FacetKind {
    /// The name of the kind.
    pub fn as_str(self) -> (result: &'static str)
        ensures
            result@ == kind_name(self),
    {
        match self {
            Self::Source => "source",
            Self::Level => "level",
            Self::PropertyKey => "property_key",
            Self::PropertyValue => "property_value",
        }
    }
}

/// The type of a property value.
#[non_exhaustive]
#[derive(Debug, Clone, Copy, PartialEq, Eq, PartialOrd, Ord, Structural)]
pub enum FacetValueType {
    String,
    Number,
    Boolean,
    Null,
    Text,
}

/// The name of a type.
pub open spec fn name_of_type(kind: FacetValueType) -> Seq<char> {
    match kind {
        FacetValueType::String => "string"@,
        FacetValueType::Number => "number"@,
        FacetValueType::Boolean => "boolean"@,
        FacetValueType::Null => "null"@,
        FacetValueType::Text => "text"@,
    }
}

impl FacetValueType {
    /// The name of the type.
    pub fn as_str(self) -> (result: &'static str)
        ensures
            result@ == name_of_type(self),
    {
        match self {
            Self::String => "string",
            Self::Number => "number",
            Self::Boolean => "boolean",
            Self::Null => "null",
            Self::Text => "text",
        }
    }
}

/// The type of a value.
pub open spec fn type_of(value: ValueView) -> FacetValueType {
    match value {
        ValueView::String(_) => FacetValueType::String,
        ValueView::Number(_) => FacetValueType::Number,
        ValueView::Bool(_) => FacetValueType::Boolean,
        ValueView::Null => FacetValueType::Null,
        ValueView::Text(_) => FacetValueType::Text,
    }
}

fn value_type(value: &PropertyValue) -> (result: FacetValueType)
    ensures
        result == type_of(value@),
{
    match value {
        PropertyValue::String(_) => FacetValueType::String,
        PropertyValue::Number(_) => FacetValueType::Number,
        PropertyValue::Bool(_) => FacetValueType::Boolean,
        PropertyValue::Null => FacetValueType::Null,
        PropertyValue::Text(_) => FacetValueType::Text,
    }
}

// ---------------------------------------------------------------------------
// Options
// ---------------------------------------------------------------------------

/// How many buckets a facet has, and the property whose values are one.
#[derive(Debug, PartialEq, Eq)]
pub struct FacetOptions {
    bucket_limit: usize,
    property_key: Option<String>,
}

/// What options are.
pub struct OptionsView {
    pub bucket_limit: int,
    pub property_key: Option<Seq<char>>,
}

impl OptionsView {
    /// Whether the options are within their limits.
    pub open spec fn valid(self) -> bool {
        &&& MIN_FACET_BUCKET_LIMIT <= self.bucket_limit <= MAX_FACET_BUCKET_LIMIT
        &&& self.property_key is Some ==> text::trim(self.property_key->0).len() > 0
    }
}

impl View for FacetOptions {
    type V = OptionsView;

    closed spec fn view(&self) -> OptionsView {
        OptionsView {
            bucket_limit: self.bucket_limit as int,
            property_key: text::opt_view(self.property_key),
        }
    }
}

/// Why options are refused.
#[non_exhaustive]
#[derive(Debug, Clone, Copy, PartialEq, Eq)]
pub enum FacetOptionsError {
    InvalidBucketLimit { value: usize },
    EmptyPropertyKey,
}

impl FacetOptionsError {
    /// The error in words.
    pub fn message(&self) -> (result: String)
        ensures
            result@ == match self {
                FacetOptionsError::InvalidBucketLimit { value } => "facet bucket limit "@
                    + text::number::decimal(*value as nat) + " is outside 1..=100"@,
                FacetOptionsError::EmptyPropertyKey => "facet property key must not be empty"@,
            },
    {
        match self {
            FacetOptionsError::InvalidBucketLimit { value } => concat3(
                "facet bucket limit ",
                decimal_string(*value as u128).as_str(),
                " is outside 1..=100",
            ),
            FacetOptionsError::EmptyPropertyKey => copy_str("facet property key must not be empty"),
        }
    }
}

impl FacetOptions {
    /// Options are within their limits.
    #[verifier::type_invariant]
    spec fn limited(&self) -> bool {
        self@.valid()
    }

    /// Options, where they are within their limits.
    pub fn new(bucket_limit: usize, property_key: Option<String>) -> (result: Result<
        Self,
        FacetOptionsError,
    >)
        ensures
            match result {
                Ok(options) => {
                    &&& options@.valid()
                    &&& options@.bucket_limit == bucket_limit
                    &&& options@.property_key == text::opt_view(property_key)
                },
                Err(FacetOptionsError::InvalidBucketLimit { value }) => value == bucket_limit && !(
                MIN_FACET_BUCKET_LIMIT <= bucket_limit <= MAX_FACET_BUCKET_LIMIT),
                Err(FacetOptionsError::EmptyPropertyKey) => MIN_FACET_BUCKET_LIMIT <= bucket_limit
                    <= MAX_FACET_BUCKET_LIMIT && property_key is Some && text::trim(
                    property_key->0@,
                ).len() == 0,
            },
    {
        if bucket_limit < MIN_FACET_BUCKET_LIMIT || bucket_limit > MAX_FACET_BUCKET_LIMIT {
            return Err(FacetOptionsError::InvalidBucketLimit { value: bucket_limit });
        }
        let empty = match &property_key {
            Some(key) => chars_trim(chars_of(key.as_str()).as_slice()).len() == 0,
            None => false,
        };
        if empty {
            return Err(FacetOptionsError::EmptyPropertyKey);
        }
        Ok(FacetOptions { bucket_limit, property_key })
    }

    /// How many buckets a facet has.
    pub fn bucket_limit(&self) -> (result: usize)
        ensures
            result == self@.bucket_limit,
            MIN_FACET_BUCKET_LIMIT <= result <= MAX_FACET_BUCKET_LIMIT,
    {
        proof {
            use_type_invariant(self);
        }
        self.bucket_limit
    }

    /// The property whose values are a facet.
    pub fn property_key(&self) -> (result: Option<&str>)
        ensures
            match result {
                Some(key) => self@.property_key == Some(key@) && text::trim(key@).len() > 0,
                None => self@.property_key is None,
            },
    {
        proof {
            use_type_invariant(self);
        }
        match &self.property_key {
            Some(key) => Some(key.as_str()),
            None => None,
        }
    }
}

impl Default for FacetOptions {
    fn default() -> (result: Self)
        ensures
            result@ == (OptionsView {
                bucket_limit: DEFAULT_FACET_BUCKET_LIMIT as int,
                property_key: None,
            }),
    {
        FacetOptions { bucket_limit: DEFAULT_FACET_BUCKET_LIMIT, property_key: None }
    }
}

// ---------------------------------------------------------------------------
// Groups
// ---------------------------------------------------------------------------

/// A value of a facet.
#[non_exhaustive]
#[derive(Debug, PartialEq, Eq)]
pub struct FacetBucket {
    pub value: String,
    pub count: usize,
    pub value_types: Vec<FacetValueType>,
}

/// What a bucket is.
pub struct BucketView {
    pub value: Seq<char>,
    pub count: int,
    pub types: Seq<FacetValueType>,
}

impl View for FacetBucket {
    type V = BucketView;

    open spec fn view(&self) -> BucketView {
        BucketView { value: self.value@, count: self.count as int, types: self.value_types@ }
    }
}

/// A facet: its buckets, and what they are counted from.
#[non_exhaustive]
#[derive(Debug, PartialEq, Eq)]
pub struct FacetGroup {
    pub schema_version: u32,
    pub facet: FacetKind,
    pub property_key: Option<String>,
    pub available_records: usize,
    pub window_records: usize,
    pub window_truncated: bool,
    pub matched_records: usize,
    pub eligible_records: usize,
    pub total_buckets: usize,
    pub truncated: bool,
    pub buckets: Vec<FacetBucket>,
}

/// What a facet is.
pub struct GroupView {
    pub schema_version: int,
    pub facet: FacetKind,
    pub property_key: Option<Seq<char>>,
    pub available_records: int,
    pub window_records: int,
    pub window_truncated: bool,
    pub matched_records: int,
    pub eligible_records: int,
    pub total_buckets: int,
    pub truncated: bool,
    pub buckets: Seq<BucketView>,
}

impl View for FacetGroup {
    type V = GroupView;

    open spec fn view(&self) -> GroupView {
        GroupView {
            schema_version: self.schema_version as int,
            facet: self.facet,
            property_key: text::opt_view(self.property_key),
            available_records: self.available_records as int,
            window_records: self.window_records as int,
            window_truncated: self.window_truncated,
            matched_records: self.matched_records as int,
            eligible_records: self.eligible_records as int,
            total_buckets: self.total_buckets as int,
            truncated: self.truncated,
            buckets: text::views(self.buckets@),
        }
    }
}

/// The newest events, as many as a window holds.
pub open spec fn window_of(events: Seq<EventView>, limit: int) -> Seq<EventView> {
    if events.len() > limit {
        events.skip(events.len() - limit)
    } else {
        events
    }
}

/// How many events a filter shows.
pub open spec fn match_count(events: Seq<EventView>, filters: FilterView) -> nat
    decreases events.len(),
{
    if events.len() == 0 {
        0
    } else {
        match_count(events.drop_last(), filters) + if filters.matches(events.last()) {
            1nat
        } else {
            0nat
        }
    }
}

/// A text in lower case.
pub open spec fn lower_text(s: Seq<char>) -> Seq<char> {
    Seq::new(s.len(), |i: int| text::lower(s[i]))
}

/// The sources of the events that a filter shows, in lower case.
pub open spec fn source_samples(events: Seq<EventView>, filters: FilterView) -> Seq<SampleView>
    decreases events.len(),
{
    if events.len() == 0 {
        Seq::empty()
    } else if filters.matches(events.last()) {
        source_samples(events.drop_last(), filters).push(
            SampleView { value: lower_text(events.last().source), kind: None },
        )
    } else {
        source_samples(events.drop_last(), filters)
    }
}

/// The keys of some properties, each once.
pub open spec fn distinct_keys(properties: Seq<PropertyView>) -> Seq<Seq<char>>
    decreases properties.len(),
{
    if properties.len() == 0 {
        Seq::empty()
    } else {
        let front = distinct_keys(properties.drop_last());
        if front.contains(properties.last().key) {
            front
        } else {
            front.push(properties.last().key)
        }
    }
}

/// Values without a type.
pub open spec fn plain_samples(values: Seq<Seq<char>>) -> Seq<SampleView> {
    Seq::new(values.len(), |i: int| SampleView { value: values[i], kind: None })
}

/// The property keys of the events that a filter shows, once for each event.
pub open spec fn key_samples(events: Seq<EventView>, filters: FilterView) -> Seq<SampleView>
    decreases events.len(),
{
    if events.len() == 0 {
        Seq::empty()
    } else if filters.matches(events.last()) {
        key_samples(events.drop_last(), filters) + plain_samples(
            distinct_keys(events.last().properties),
        )
    } else {
        key_samples(events.drop_last(), filters)
    }
}

/// The values of a property of the events that a filter shows.
pub open spec fn value_samples(
    events: Seq<EventView>,
    filters: FilterView,
    key: Seq<char>,
) -> Seq<SampleView>
    decreases events.len(),
{
    if events.len() == 0 {
        Seq::empty()
    } else {
        let front = value_samples(events.drop_last(), filters, key);
        match model::property_value(events.last().properties, key) {
            Some(value) => if filters.matches(events.last()) {
                front.push(SampleView { value: value.display(), kind: Some(type_of(value)) })
            } else {
                front
            },
            None => front,
        }
    }
}

/// A one-item list where a condition holds.
pub open spec fn kept(condition: bool, kind: FacetValueType) -> Seq<FacetValueType> {
    if condition {
        seq![kind]
    } else {
        Seq::empty()
    }
}

/// The types of a value, in their order.
pub open spec fn kind_list(kinds: Kinds) -> Seq<FacetValueType> {
    kept(kinds.string, FacetValueType::String) + kept(kinds.number, FacetValueType::Number) + kept(
        kinds.boolean,
        FacetValueType::Boolean,
    ) + kept(kinds.null, FacetValueType::Null) + kept(kinds.text, FacetValueType::Text)
}

/// The bucket of a counted value.
pub open spec fn run_bucket(run: RunView) -> BucketView {
    BucketView { value: run.value, count: run.count, types: kind_list(run.kinds) }
}

/// The buckets of samples, most frequent first.
pub open spec fn ranked_buckets(samples: Seq<SampleView>) -> Seq<BucketView> {
    let runs = tally::ranked(samples);
    Seq::new(runs.len(), |i: int| run_bucket(runs[i]))
}

/// How many events of a level a filter shows.
pub open spec fn level_count(events: Seq<EventView>, filters: FilterView, level: Level) -> nat
    decreases events.len(),
{
    if events.len() == 0 {
        0
    } else {
        level_count(events.drop_last(), filters, level) + if filters.matches(events.last())
            && events.last().level == level {
            1nat
        } else {
            0nat
        }
    }
}

/// The bucket of a level, where events have it.
pub open spec fn level_bucket(
    events: Seq<EventView>,
    filters: FilterView,
    level: Level,
) -> Seq<BucketView> {
    let count = level_count(events, filters, level);
    if count > 0 {
        seq![
            BucketView {
                value: model::level_name(level),
                count: count as int,
                types: Seq::empty(),
            },
        ]
    } else {
        Seq::empty()
    }
}

/// The buckets of levels, most serious first.
pub open spec fn level_buckets(events: Seq<EventView>, filters: FilterView) -> Seq<BucketView> {
    level_bucket(events, filters, Level::Fatal) + level_bucket(events, filters, Level::Error)
        + level_bucket(events, filters, Level::Warn) + level_bucket(events, filters, Level::Info)
        + level_bucket(events, filters, Level::Debug) + level_bucket(events, filters, Level::Trace)
        + level_bucket(events, filters, Level::Unknown)
}

/// What the facets of one window have in common.
pub struct WindowView {
    pub available: int,
    pub window: int,
    pub matched: int,
}

/// A facet with as many of its buckets as are wanted.
pub open spec fn group_of(
    facet: FacetKind,
    property_key: Option<Seq<char>>,
    eligible: int,
    buckets: Seq<BucketView>,
    limit: int,
    counts: WindowView,
) -> GroupView {
    let shown = if buckets.len() > limit {
        buckets.take(limit)
    } else {
        buckets
    };
    GroupView {
        schema_version: 1,
        facet,
        property_key,
        available_records: counts.available,
        window_records: counts.window,
        window_truncated: counts.available > counts.window,
        matched_records: counts.matched,
        eligible_records: eligible,
        total_buckets: buckets.len() as int,
        truncated: buckets.len() > limit,
        buckets: shown,
    }
}

/// The facets of the newest events. Each facet is counted over the events that
/// the filter shows when its own condition is left out.
pub open spec fn facets(
    events: Seq<EventView>,
    record_limit: int,
    filters: FilterView,
    bucket_limit: int,
    property_key: Option<Seq<char>>,
) -> Seq<GroupView> {
    let window = window_of(events, record_limit);
    let counts = WindowView {
        available: events.len() as int,
        window: window.len() as int,
        matched: match_count(window, filters) as int,
    };
    let common = seq![
        group_of(
            FacetKind::Source,
            None,
            match_count(window, filters.sourceless()) as int,
            ranked_buckets(source_samples(window, filters.sourceless())),
            bucket_limit,
            counts,
        ),
        group_of(
            FacetKind::Level,
            None,
            match_count(window, filters.levelless()) as int,
            level_buckets(window, filters.levelless()),
            bucket_limit,
            counts,
        ),
        group_of(
            FacetKind::PropertyKey,
            None,
            match_count(window, filters) as int,
            ranked_buckets(key_samples(window, filters)),
            bucket_limit,
            counts,
        ),
    ];
    match property_key {
        Some(key) => common.push(
            group_of(
                FacetKind::PropertyValue,
                Some(key),
                match_count(window, filters.keyless(key)) as int,
                ranked_buckets(value_samples(window, filters.keyless(key), key)),
                bucket_limit,
                counts,
            ),
        ),
        None => common,
    }
}

// ---------------------------------------------------------------------------
// Counting
// ---------------------------------------------------------------------------

proof fn lemma_match_count_bound(events: Seq<EventView>, filters: FilterView)
    ensures
        match_count(events, filters) <= events.len(),
    decreases events.len(),
{
    if events.len() > 0 {
        lemma_match_count_bound(events.drop_last(), filters);
    }
}

proof fn lemma_level_count_bound(events: Seq<EventView>, filters: FilterView, level: Level)
    ensures
        level_count(events, filters, level) <= events.len(),
    decreases events.len(),
{
    if events.len() > 0 {
        lemma_level_count_bound(events.drop_last(), filters, level);
    }
}

/// The events of a window.
fn newest<'a>(events: &[&'a LogEvent], limit: usize) -> (result: Vec<&'a LogEvent>)
    ensures
        text::views(result@) == window_of(text::views(events@), limit as int),
{
    let total: usize = events.len();
    let start: usize = if total > limit {
        total - limit
    } else {
        0
    };
    let ghost all = text::views(events@);
    let mut result: Vec<&'a LogEvent> = Vec::new();
    let mut i: usize = start;
    assert(text::views(result@) =~= all.subrange(start as int, start as int));
    while i < total
        invariant
            total == events@.len(),
            start <= i <= total,
            all == text::views(events@),
            text::views(result@) == all.subrange(start as int, i as int),
        decreases total - i,
    {
        result.push(events[i]);
        assert(all.subrange(start as int, i + 1) =~= all.subrange(start as int, i as int).push(
            all[i as int],
        ));
        i += 1;
    }
    assert(all.subrange(start as int, total as int) =~= window_of(all, limit as int));
    result
}

fn count_matches(events: &Vec<&LogEvent>, filters: &LogFilter) -> (result: usize)
    ensures
        result == match_count(text::views(events@), filters@),
{
    let ghost all = text::views(events@);
    let mut count: usize = 0;
    let mut i: usize = 0;
    assert(all.take(0) =~= Seq::<EventView>::empty());
    while i < events.len()
        invariant
            i <= events@.len(),
            all == text::views(events@),
            count <= i,
            count == match_count(all.take(i as int), filters@),
        decreases events@.len() - i,
    {
        assert(all.take(i + 1).drop_last() =~= all.take(i as int));
        if filters.matches(events[i]) {
            count += 1;
        }
        i += 1;
    }
    assert(all.take(i as int) =~= all);
    count
}

fn lower_string(value: &str) -> (result: String)
    ensures
        result@ == lower_text(value@),
{
    let chars = chars_of(value);
    let mut out: Vec<char> = Vec::new();
    let mut i: usize = 0;
    while i < chars.len()
        invariant
            i <= chars@.len(),
            chars@ == value@,
            out@ == lower_text(chars@).take(i as int),
        decreases chars@.len() - i,
    {
        out.push(char_lower(chars[i]));
        i += 1;
        assert(lower_text(chars@).take(i as int) =~= lower_text(chars@).take(i - 1).push(
            lower_text(chars@)[i - 1],
        ));
    }
    assert(lower_text(chars@).take(i as int) =~= lower_text(chars@));
    string_of(out.as_slice())
}

fn collect_sources(events: &Vec<&LogEvent>, filters: &LogFilter) -> (result: VecDeque<Sample>)
    ensures
        text::views(result@) == source_samples(text::views(events@), filters@),
{
    let ghost all = text::views(events@);
    let mut samples: VecDeque<Sample> = VecDeque::new();
    let mut i: usize = 0;
    assert(all.take(0) =~= Seq::<EventView>::empty());
    assert(text::views(samples@) =~= Seq::<SampleView>::empty());
    while i < events.len()
        invariant
            i <= events@.len(),
            all == text::views(events@),
            text::views(samples@) == source_samples(all.take(i as int), filters@),
        decreases events@.len() - i,
    {
        assert(all.take(i + 1).drop_last() =~= all.take(i as int));
        let event = events[i];
        if filters.matches(event) {
            samples.push_back(Sample { value: lower_string(event.source.as_str()), kind: None });
        }
        i += 1;
    }
    assert(all.take(i as int) =~= all);
    samples
}

fn collect_distinct_keys(properties: &Vec<LogProperty>) -> (result: Vec<String>)
    ensures
        text::views(result@) == distinct_keys(text::views(properties@)),
{
    let ghost all = text::views(properties@);
    let mut keys: Vec<String> = Vec::new();
    let mut i: usize = 0;
    assert(all.take(0) =~= Seq::<PropertyView>::empty());
    assert(text::views(keys@) =~= Seq::<Seq<char>>::empty());
    while i < properties.len()
        invariant
            i <= properties@.len(),
            all == text::views(properties@),
            text::views(keys@) == distinct_keys(all.take(i as int)),
        decreases properties@.len() - i,
    {
        assert(all.take(i + 1).drop_last() =~= all.take(i as int));
        let key = &properties[i].key;
        if !model::strings_contain(&keys, key.as_str()) {
            keys.push(key.clone());
        }
        i += 1;
    }
    assert(all.take(i as int) =~= all);
    keys
}

fn collect_keys(events: &Vec<&LogEvent>, filters: &LogFilter) -> (result: VecDeque<Sample>)
    ensures
        text::views(result@) == key_samples(text::views(events@), filters@),
{
    let ghost all = text::views(events@);
    let mut samples: VecDeque<Sample> = VecDeque::new();
    let mut i: usize = 0;
    assert(all.take(0) =~= Seq::<EventView>::empty());
    assert(text::views(samples@) =~= Seq::<SampleView>::empty());
    while i < events.len()
        invariant
            i <= events@.len(),
            all == text::views(events@),
            text::views(samples@) == key_samples(all.take(i as int), filters@),
        decreases events@.len() - i,
    {
        assert(all.take(i + 1).drop_last() =~= all.take(i as int));
        let event = events[i];
        if filters.matches(event) {
            let keys = collect_distinct_keys(&event.properties);
            let ghost before = text::views(samples@);
            let ghost added = plain_samples(text::views(keys@));
            let mut k: usize = 0;
            assert(before + added.take(0) =~= before);
            while k < keys.len()
                invariant
                    k <= keys@.len(),
                    added == plain_samples(text::views(keys@)),
                    text::views(samples@) == before + added.take(k as int),
                decreases keys@.len() - k,
            {
                samples.push_back(Sample { value: keys[k].clone(), kind: None });
                assert(before + added.take(k + 1) =~= (before + added.take(k as int)).push(
                    added[k as int],
                ));
                k += 1;
            }
            assert(added.take(k as int) =~= added);
        }
        i += 1;
    }
    assert(all.take(i as int) =~= all);
    samples
}

fn collect_values(events: &Vec<&LogEvent>, filters: &LogFilter, key: &str) -> (result: VecDeque<
    Sample,
>)
    ensures
        text::views(result@) == value_samples(text::views(events@), filters@, key@),
{
    let ghost all = text::views(events@);
    let mut samples: VecDeque<Sample> = VecDeque::new();
    let mut i: usize = 0;
    assert(all.take(0) =~= Seq::<EventView>::empty());
    assert(text::views(samples@) =~= Seq::<SampleView>::empty());
    while i < events.len()
        invariant
            i <= events@.len(),
            all == text::views(events@),
            text::views(samples@) == value_samples(all.take(i as int), filters@, key@),
        decreases events@.len() - i,
    {
        assert(all.take(i + 1).drop_last() =~= all.take(i as int));
        let event = events[i];
        if filters.matches(event) {
            match event.property(key) {
                Some(property) => {
                    samples.push_back(
                        Sample {
                            value: copy_str(property.value.as_display_str()),
                            kind: Some(value_type(&property.value)),
                        },
                    );
                },
                None => {},
            }
        }
        i += 1;
    }
    assert(all.take(i as int) =~= all);
    samples
}

fn push_kind(out: &mut Vec<FacetValueType>, condition: bool, kind: FacetValueType)
    ensures
        final(out)@ == old(out)@ + kept(condition, kind),
{
    if condition {
        out.push(kind);
    }
    assert(out@ =~= old(out)@ + kept(condition, kind));
}

fn list_kinds(kinds: Kinds) -> (result: Vec<FacetValueType>)
    ensures
        result@ == kind_list(kinds),
{
    let mut out: Vec<FacetValueType> = Vec::new();
    push_kind(&mut out, kinds.string, FacetValueType::String);
    assert(out@ =~= kept(kinds.string, FacetValueType::String));
    push_kind(&mut out, kinds.number, FacetValueType::Number);
    push_kind(&mut out, kinds.boolean, FacetValueType::Boolean);
    push_kind(&mut out, kinds.null, FacetValueType::Null);
    push_kind(&mut out, kinds.text, FacetValueType::Text);
    out
}

fn sorted_buckets(samples: VecDeque<Sample>) -> (result: Vec<FacetBucket>)
    ensures
        text::views(result@) == ranked_buckets(text::views(samples@)),
{
    let ghost all = ranked_buckets(text::views(samples@));
    let runs = rank(samples);
    let mut buckets: Vec<FacetBucket> = Vec::new();
    let mut i: usize = 0;
    assert(text::views(buckets@) =~= all.take(0));
    while i < runs.len()
        invariant
            i <= runs@.len(),
            all.len() == runs@.len(),
            forall|j: int| 0 <= j < runs@.len() ==> #[trigger] all[j] == run_bucket(runs@[j]@),
            text::views(buckets@) == all.take(i as int),
        decreases runs@.len() - i,
    {
        let run = &runs[i];
        let bucket = FacetBucket {
            value: run.value.clone(),
            count: run.count,
            value_types: list_kinds(run.kinds),
        };
        assert(bucket@ == all[i as int]);
        buckets.push(bucket);
        assert(all.take(i + 1) =~= all.take(i as int).push(all[i as int]));
        i += 1;
    }
    assert(all.take(i as int) =~= all);
    buckets
}

/// The place of a level, most serious first.
pub open spec fn level_place(level: Level) -> int {
    match level {
        Level::Fatal => 0,
        Level::Error => 1,
        Level::Warn => 2,
        Level::Info => 3,
        Level::Debug => 4,
        Level::Trace => 5,
        Level::Unknown => 6,
    }
}

fn level_index(level: Level) -> (result: usize)
    ensures
        result == level_place(level),
        result < 7,
{
    match level {
        Level::Fatal => 0,
        Level::Error => 1,
        Level::Warn => 2,
        Level::Info => 3,
        Level::Debug => 4,
        Level::Trace => 5,
        Level::Unknown => 6,
    }
}

fn count_levels(events: &Vec<&LogEvent>, filters: &LogFilter) -> (result: Vec<usize>)
    ensures
        result@.len() == 7,
        forall|level: Level| #[trigger]
            level_count(text::views(events@), filters@, level) == result@[level_place(level)],
{
    let ghost all = text::views(events@);
    let mut counts: Vec<usize> = Vec::new();
    let mut n: usize = 0;
    while n < 7
        invariant
            n <= 7,
            counts@.len() == n,
            forall|j: int| 0 <= j < n ==> counts@[j] == 0,
        decreases 7 - n,
    {
        counts.push(0);
        n += 1;
    }
    let mut i: usize = 0;
    assert(all.take(0) =~= Seq::<EventView>::empty());
    while i < events.len()
        invariant
            i <= events@.len(),
            all == text::views(events@),
            counts@.len() == 7,
            forall|level: Level| #[trigger]
                level_count(all.take(i as int), filters@, level) == counts@[level_place(level)],
        decreases events@.len() - i,
    {
        let ghost before = counts@;
        let event = events[i];
        assert(all.take(i + 1).drop_last() =~= all.take(i as int));
        assert(all.take(i + 1).last() == event@);
        let matched = filters.matches(event);
        if matched {
            let at = level_index(event.level);
            proof {
                lemma_level_count_bound(all.take(i as int), filters@, event.level);
            }
            let count: usize = counts[at] + 1;
            counts[at] = count;
        }
        assert forall|level: Level| #[trigger]
            level_count(all.take(i + 1), filters@, level) == counts@[level_place(level)] by {
            assert(level_count(all.take(i as int), filters@, level) == before[level_place(level)]);
            if level != event.level {
                assert(level_place(level) != level_place(event.level));
            }
        }
        i += 1;
    }
    assert(all.take(i as int) =~= all);
    counts
}

fn push_level(buckets: &mut Vec<FacetBucket>, level: Level, count: usize)
    ensures
        text::views(final(buckets)@) == text::views(old(buckets)@) + if count > 0 {
            seq![
                BucketView {
                    value: model::level_name(level),
                    count: count as int,
                    types: Seq::empty(),
                },
            ]
        } else {
            Seq::<BucketView>::empty()
        },
{
    let ghost before = text::views(buckets@);
    if count > 0 {
        let bucket = FacetBucket {
            value: copy_str(level.as_str()),
            count,
            value_types: Vec::new(),
        };
        assert(bucket@.types =~= Seq::<FacetValueType>::empty());
        buckets.push(bucket);
        assert(text::views(buckets@) =~= before + seq![bucket@]);
    } else {
        assert(before + Seq::<BucketView>::empty() =~= before);
    }
}

fn list_levels(events: &Vec<&LogEvent>, filters: &LogFilter) -> (result: Vec<FacetBucket>)
    ensures
        text::views(result@) == level_buckets(text::views(events@), filters@),
{
    let counts = count_levels(events, filters);
    let ghost all = text::views(events@);
    let mut buckets: Vec<FacetBucket> = Vec::new();
    assert(level_count(all, filters@, Level::Fatal) == counts@[0]);
    assert(level_count(all, filters@, Level::Error) == counts@[1]);
    assert(level_count(all, filters@, Level::Warn) == counts@[2]);
    assert(level_count(all, filters@, Level::Info) == counts@[3]);
    assert(level_count(all, filters@, Level::Debug) == counts@[4]);
    assert(level_count(all, filters@, Level::Trace) == counts@[5]);
    assert(level_count(all, filters@, Level::Unknown) == counts@[6]);
    push_level(&mut buckets, Level::Fatal, counts[0]);
    assert(text::views(buckets@) =~= level_bucket(all, filters@, Level::Fatal));
    push_level(&mut buckets, Level::Error, counts[1]);
    push_level(&mut buckets, Level::Warn, counts[2]);
    push_level(&mut buckets, Level::Info, counts[3]);
    push_level(&mut buckets, Level::Debug, counts[4]);
    push_level(&mut buckets, Level::Trace, counts[5]);
    push_level(&mut buckets, Level::Unknown, counts[6]);
    buckets
}

/// What the facets of one window have in common.
#[derive(Clone, Copy)]
struct GroupMetadata {
    available_records: usize,
    window_records: usize,
    matched_records: usize,
}

fn make_group(
    facet: FacetKind,
    property_key: Option<String>,
    eligible_records: usize,
    buckets: Vec<FacetBucket>,
    bucket_limit: usize,
    metadata: GroupMetadata,
) -> (result: FacetGroup)
    ensures
        result@ == group_of(
            facet,
            text::opt_view(property_key),
            eligible_records as int,
            text::views(buckets@),
            bucket_limit as int,
            WindowView {
                available: metadata.available_records as int,
                window: metadata.window_records as int,
                matched: metadata.matched_records as int,
            },
        ),
{
    let total_buckets = buckets.len();
    let ghost all = text::views(buckets@);
    let mut buckets = buckets;
    buckets.truncate(bucket_limit);
    assert(text::views(buckets@) =~= if all.len() > bucket_limit {
        all.take(bucket_limit as int)
    } else {
        all
    });
    FacetGroup {
        schema_version: 1,
        facet,
        property_key,
        available_records: metadata.available_records,
        window_records: metadata.window_records,
        window_truncated: metadata.available_records > metadata.window_records,
        matched_records: metadata.matched_records,
        eligible_records,
        total_buckets,
        truncated: buckets.len() < total_buckets,
        buckets,
    }
}

/// Divides the newest events into facets.
pub fn aggregate_facets(
    events: &[&LogEvent],
    record_limit: usize,
    filter: &LogFilter,
    options: &FacetOptions,
) -> (result: Vec<FacetGroup>)
    ensures
        text::views(result@) == facets(
            text::views(events@),
            record_limit as int,
            filter@,
            options@.bucket_limit,
            options@.property_key,
        ),
{
    let window = newest(events, record_limit);
    let source_filter = filter.without_source();
    let level_filter = filter.without_level();
    let matched_records = count_matches(&window, filter);
    let metadata = GroupMetadata {
        available_records: events.len(),
        window_records: window.len(),
        matched_records,
    };
    let limit = options.bucket_limit;
    let mut groups: Vec<FacetGroup> = Vec::new();
    groups.push(
        make_group(
            FacetKind::Source,
            None,
            count_matches(&window, &source_filter),
            sorted_buckets(collect_sources(&window, &source_filter)),
            limit,
            metadata,
        ),
    );
    groups.push(
        make_group(
            FacetKind::Level,
            None,
            count_matches(&window, &level_filter),
            list_levels(&window, &level_filter),
            limit,
            metadata,
        ),
    );
    groups.push(
        make_group(
            FacetKind::PropertyKey,
            None,
            matched_records,
            sorted_buckets(collect_keys(&window, filter)),
            limit,
            metadata,
        ),
    );
    let ghost common = text::views(groups@);
    assert(common =~= facets(
        text::views(events@),
        record_limit as int,
        filter@,
        limit as int,
        None,
    ));
    match &options.property_key {
        Some(key) => {
            let value_filter = filter.without_property_key(key.as_str());
            groups.push(
                make_group(
                    FacetKind::PropertyValue,
                    Some(key.clone()),
                    count_matches(&window, &value_filter),
                    sorted_buckets(collect_values(&window, &value_filter, key.as_str())),
                    limit,
                    metadata,
                ),
            );
        },
        None => {},
    }
    groups
}

// ---------------------------------------------------------------------------
// Laws
// ---------------------------------------------------------------------------

/// A facet discloses what it leaves out: it shows no more buckets than wanted,
/// counts them all, and says whether some are not shown.
pub proof fn law_group_discloses_truncation(
    facet: FacetKind,
    property_key: Option<Seq<char>>,
    eligible: int,
    buckets: Seq<BucketView>,
    limit: int,
    counts: WindowView,
)
    requires
        limit >= 0,
    ensures
        ({
            let group = group_of(facet, property_key, eligible, buckets, limit, counts);
            &&& group.buckets.len() <= limit
            &&& group.buckets.len() <= group.total_buckets
            &&& group.truncated == (group.buckets.len() < group.total_buckets)
            &&& group.window_truncated == (group.window_records < group.available_records)
        }),
{
}

/// The window is fixed before the filter: what is older than the window is not
/// counted, whatever the filter shows.
pub proof fn law_window_is_the_newest(events: Seq<EventView>, limit: int, i: int)
    requires
        limit >= 0,
        0 <= i < window_of(events, limit).len(),
    ensures
        window_of(events, limit).len() <= limit || window_of(events, limit) == events,
        window_of(events, limit)[i] == events[events.len() - window_of(events, limit).len() + i],
{
}

/// How many records buckets count together.
pub open spec fn bucket_total(buckets: Seq<BucketView>) -> int
    decreases buckets.len(),
{
    if buckets.len() == 0 {
        0
    } else {
        bucket_total(buckets.drop_last()) + buckets.last().count
    }
}

/// Every eligible record has one source, one level and at most one value of a
/// property: where all buckets are shown, those of the sources count the
/// eligible records, and so do those of the levels, and those of the values no
/// more.
pub proof fn law_every_record_is_counted(
    events: Seq<EventView>,
    record_limit: int,
    filters: FilterView,
    bucket_limit: int,
    property_key: Option<Seq<char>>,
)
    ensures
        ({
            let groups = facets(events, record_limit, filters, bucket_limit, property_key);
            &&& !groups[0].truncated ==> bucket_total(groups[0].buckets)
                == groups[0].eligible_records
            &&& !groups[1].truncated ==> bucket_total(groups[1].buckets)
                == groups[1].eligible_records
            &&& property_key is Some && !groups[3].truncated ==> bucket_total(groups[3].buckets)
                <= groups[3].eligible_records
        }),
{
    let window = window_of(events, record_limit);
    let sources = source_samples(window, filters.sourceless());
    lemma_source_samples_len(window, filters.sourceless());
    tally::law_every_sample_is_counted(sources);
    lemma_bucket_total(tally::ranked(sources));
    lemma_level_totals(window, filters.levelless());
    match property_key {
        Some(key) => {
            let values = value_samples(window, filters.keyless(key), key);
            lemma_value_samples_len(window, filters.keyless(key), key);
            tally::law_every_sample_is_counted(values);
            lemma_bucket_total(tally::ranked(values));
        },
        None => {},
    }
}

/// How many of the events that a filter shows have a property.
pub open spec fn holder_count(events: Seq<EventView>, filters: FilterView, key: Seq<char>) -> nat
    decreases events.len(),
{
    if events.len() == 0 {
        0
    } else {
        holder_count(events.drop_last(), filters, key) + if filters.matches(events.last())
            && distinct_keys(events.last().properties).contains(key) {
            1nat
        } else {
            0nat
        }
    }
}

/// A key is counted once for each record that has it, however often the record
/// repeats it.
pub proof fn law_repeated_key_counts_once(
    events: Seq<EventView>,
    filters: FilterView,
    key: Seq<char>,
)
    ensures
        tally::value_count(key_samples(events, filters), key) == holder_count(
            events,
            filters,
            key,
        ),
    decreases events.len(),
{
    if events.len() > 0 {
        let front = events.drop_last();
        law_repeated_key_counts_once(front, filters, key);
        if filters.matches(events.last()) {
            let keys = distinct_keys(events.last().properties);
            lemma_distinct_keys(events.last().properties);
            lemma_key_count(keys, key);
            tally::lemma_value_count_add(key_samples(front, filters), plain_samples(keys), key);
        }
    }
}

pub proof fn lemma_distinct_keys(properties: Seq<PropertyView>)
    ensures
        distinct_keys(properties).no_duplicates(),
    decreases properties.len(),
{
    if properties.len() > 0 {
        lemma_distinct_keys(properties.drop_last());
    }
}

pub proof fn lemma_key_count(keys: Seq<Seq<char>>, key: Seq<char>)
    requires
        keys.no_duplicates(),
    ensures
        tally::value_count(plain_samples(keys), key) == if keys.contains(key) {
            1nat
        } else {
            0nat
        },
    decreases keys.len(),
{
    if keys.len() > 0 {
        let front = keys.drop_last();
        lemma_key_count(front, key);
        assert(plain_samples(keys).drop_last() =~= plain_samples(front));
        if front.contains(key) {
            let k = choose|k: int| 0 <= k < front.len() && front[k] == key;
            assert(keys[k] == key);
            assert(keys[keys.len() - 1] != key);
        } else if keys.contains(key) {
            let k = choose|k: int| 0 <= k < keys.len() && keys[k] == key;
            if k < front.len() {
                assert(front[k] == key);
            }
        }
        if keys.last() == key {
            assert(keys[keys.len() - 1] == key);
        }
    }
}

proof fn lemma_source_samples_len(events: Seq<EventView>, filters: FilterView)
    ensures
        source_samples(events, filters).len() == match_count(events, filters),
    decreases events.len(),
{
    if events.len() > 0 {
        lemma_source_samples_len(events.drop_last(), filters);
    }
}

proof fn lemma_value_samples_len(events: Seq<EventView>, filters: FilterView, key: Seq<char>)
    ensures
        value_samples(events, filters, key).len() <= match_count(events, filters),
    decreases events.len(),
{
    if events.len() > 0 {
        lemma_value_samples_len(events.drop_last(), filters, key);
    }
}

proof fn lemma_bucket_total(runs: Seq<tally::RunView>)
    ensures
        bucket_total(Seq::new(runs.len(), |i: int| run_bucket(runs[i]))) == tally::total(runs),
    decreases runs.len(),
{
    let buckets = Seq::new(runs.len(), |i: int| run_bucket(runs[i]));
    if runs.len() > 0 {
        let front = runs.drop_last();
        lemma_bucket_total(front);
        assert(buckets.drop_last() =~= Seq::new(front.len(), |i: int| run_bucket(front[i])));
    }
}

proof fn lemma_bucket_total_add(a: Seq<BucketView>, b: Seq<BucketView>)
    ensures
        bucket_total(a + b) == bucket_total(a) + bucket_total(b),
    decreases b.len(),
{
    if b.len() == 0 {
        assert(a + b =~= a);
    } else {
        lemma_bucket_total_add(a, b.drop_last());
        assert((a + b).drop_last() =~= a + b.drop_last());
    }
}

proof fn lemma_level_bucket_total(events: Seq<EventView>, filters: FilterView, level: Level)
    ensures
        bucket_total(level_bucket(events, filters, level)) == level_count(events, filters, level),
{
    let bucket = level_bucket(events, filters, level);
    if bucket.len() > 0 {
        assert(bucket.drop_last() =~= Seq::<BucketView>::empty());
        assert(bucket_total(bucket.drop_last()) == 0);
    }
}

proof fn lemma_level_counts(events: Seq<EventView>, filters: FilterView)
    ensures
        level_count(events, filters, Level::Fatal) + level_count(events, filters, Level::Error)
            + level_count(events, filters, Level::Warn) + level_count(events, filters, Level::Info)
            + level_count(events, filters, Level::Debug) + level_count(
            events,
            filters,
            Level::Trace,
        ) + level_count(events, filters, Level::Unknown) == match_count(events, filters),
    decreases events.len(),
{
    if events.len() > 0 {
        lemma_level_counts(events.drop_last(), filters);
    }
}

proof fn lemma_level_totals(events: Seq<EventView>, filters: FilterView)
    ensures
        bucket_total(level_buckets(events, filters)) == match_count(events, filters),
{
    let fatal = level_bucket(events, filters, Level::Fatal);
    let error = level_bucket(events, filters, Level::Error);
    let warn = level_bucket(events, filters, Level::Warn);
    let info = level_bucket(events, filters, Level::Info);
    let debug = level_bucket(events, filters, Level::Debug);
    let trace = level_bucket(events, filters, Level::Trace);
    let unknown = level_bucket(events, filters, Level::Unknown);
    lemma_level_bucket_total(events, filters, Level::Fatal);
    lemma_level_bucket_total(events, filters, Level::Error);
    lemma_level_bucket_total(events, filters, Level::Warn);
    lemma_level_bucket_total(events, filters, Level::Info);
    lemma_level_bucket_total(events, filters, Level::Debug);
    lemma_level_bucket_total(events, filters, Level::Trace);
    lemma_level_bucket_total(events, filters, Level::Unknown);
    lemma_bucket_total_add(fatal, error);
    lemma_bucket_total_add(fatal + error, warn);
    lemma_bucket_total_add(fatal + error + warn, info);
    lemma_bucket_total_add(fatal + error + warn + info, debug);
    lemma_bucket_total_add(fatal + error + warn + info + debug, trace);
    lemma_bucket_total_add(fatal + error + warn + info + debug + trace, unknown);
    lemma_level_counts(events, filters);
}

} // verus!
