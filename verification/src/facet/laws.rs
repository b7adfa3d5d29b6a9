//! What facets count.
use crate::facet::tally::{self, SampleView};
use crate::facet::{self, escape, BucketView, FacetKind, FacetValueType};
use crate::filter::FilterView;
use crate::model::{self, EventView, Level, PropertyView, ValueView};
use crate::text;
use crate::text::laws as texts;
use crate::text::order;
use vstd::prelude::*;

verus! {

/// Whether an event has a property with a key.
pub open spec fn has_key(event: EventView, key: Seq<char>) -> bool {
    exists|i: int| 0 <= i < event.properties.len() && (#[trigger] event.properties[i]).key == key
}

/// The newest events, as many as are asked for.
pub open spec fn newest(events: Seq<EventView>, limit: int) -> Seq<EventView> {
    if events.len() <= limit {
        events
    } else {
        events.subrange(events.len() - limit, events.len() as int)
    }
}

/// How many of the events that a filter shows have a property with a key.
pub open spec fn key_holders(events: Seq<EventView>, filters: FilterView, key: Seq<char>) -> nat {
    events.filter(|event: EventView| filters.matches(event) && has_key(event, key)).len()
}

/// How many of the events that a filter shows come from a source.
pub open spec fn from_source(
    events: Seq<EventView>,
    filters: FilterView,
    source: Seq<char>,
) -> nat {
    events.filter(
        |event: EventView| filters.matches(event) && facet::lower_text(event.source) == source,
    ).len()
}

/// Whether the first property with a key shows a value.
pub open spec fn shows(event: EventView, key: Seq<char>, value: Seq<char>) -> bool {
    exists|i: int|
        0 <= i < event.properties.len() && (#[trigger] event.properties[i]).key == key
            && event.properties[i].value.display() == value && forall|j: int|
            0 <= j < i ==> (#[trigger] event.properties[j]).key != key
}

/// How many of the events that a filter shows show a value of a property.
pub open spec fn showing(
    events: Seq<EventView>,
    filters: FilterView,
    key: Seq<char>,
    value: Seq<char>,
) -> nat {
    events.filter(|event: EventView| filters.matches(event) && shows(event, key, value)).len()
}

/// How many of the events that a filter shows are of a level.
pub open spec fn of_level(events: Seq<EventView>, filters: FilterView, level: Level) -> nat {
    events.filter(|event: EventView| filters.matches(event) && event.level == level).len()
}

/// Whether buckets count what a number says of each value, each value that has one
/// in a bucket of its own, the most frequent first and the same number in the order
/// of the texts.
pub open spec fn count_all(buckets: Seq<BucketView>, number: spec_fn(Seq<char>) -> nat) -> bool {
    &&& forall|i: int|
        0 <= i < buckets.len() ==> (#[trigger] buckets[i]).count == number(buckets[i].value)
            && buckets[i].count > 0
    &&& forall|value: Seq<char>| #[trigger] number(value) > 0 ==> has_bucket(buckets, value)
    &&& forall|i: int, j: int|
        0 <= i < j < buckets.len() ==> (#[trigger] buckets[i]).count > (
        #[trigger] buckets[j]).count || buckets[i].count == buckets[j].count && order::before(
            buckets[i].value,
            buckets[j].value,
        )
}

/// Whether a value has a bucket.
pub open spec fn has_bucket(buckets: Seq<BucketView>, value: Seq<char>) -> bool {
    exists|i: int| 0 <= i < buckets.len() && (#[trigger] buckets[i]).value == value
}

proof fn lemma_ranked(samples: Seq<SampleView>, number: spec_fn(Seq<char>) -> nat)
    requires
        forall|value: Seq<char>|
            tally::value_count(samples, value) == #[trigger] number(value),
    ensures
        count_all(facet::ranked_buckets(samples), number),
{
    tally::law_every_sample_is_counted(samples);
    let runs = tally::ranked(samples);
    let buckets = facet::ranked_buckets(samples);
    assert forall|i: int| 0 <= i < buckets.len() implies (#[trigger] buckets[i]).count == number(
        buckets[i].value,
    ) && buckets[i].count > 0 by {
        assert(runs[i] == tally::run_of(samples, runs[i].value));
        assert(tally::value_count(samples, runs[i].value) == number(runs[i].value));
    }
    assert forall|value: Seq<char>| #[trigger] number(value) > 0 implies has_bucket(
        buckets,
        value,
    ) by {
        assert(tally::value_count(samples, value) > 0);
        let k = lemma_sample(samples, value);
        let run = tally::run_of(samples, samples[k].value);
        assert(runs.contains(run));
        let i = choose|i: int| 0 <= i < runs.len() && runs[i] == run;
        assert(buckets[i].value == value);
    }
    assert forall|i: int, j: int| 0 <= i < j < buckets.len() implies (#[trigger] buckets[i]).count
        > (#[trigger] buckets[j]).count || buckets[i].count == buckets[j].count && order::before(
        buckets[i].value,
        buckets[j].value,
    ) by {
        assert(tally::ranks_before(runs[i], runs[j]));
    }
}

proof fn lemma_sample(samples: Seq<SampleView>, value: Seq<char>) -> (k: int)
    requires
        tally::value_count(samples, value) > 0,
    ensures
        0 <= k < samples.len(),
        samples[k].value == value,
    decreases samples.len(),
{
    if samples.last().value == value {
        samples.len() - 1
    } else {
        lemma_sample(samples.drop_last(), value)
    }
}

proof fn lemma_distinct_keys_hold(properties: Seq<PropertyView>, key: Seq<char>)
    ensures
        facet::distinct_keys(properties).contains(key) == exists|i: int|
            0 <= i < properties.len() && (#[trigger] properties[i]).key == key,
    decreases properties.len(),
{
    let keys = facet::distinct_keys(properties);
    if properties.len() > 0 {
        let front = properties.drop_last();
        let before = facet::distinct_keys(front);
        lemma_distinct_keys_hold(front, key);
        let last = properties[properties.len() - 1];
        if before.contains(key) {
            let k = choose|k: int| 0 <= k < before.len() && before[k] == key;
            assert(keys[k] == key);
            let i = choose|i: int| 0 <= i < front.len() && (#[trigger] front[i]).key == key;
            assert(properties[i].key == key);
        }
        if last.key == key && !before.contains(key) {
            assert(keys[before.len() as int] == key);
        }
        if keys.contains(key) && !before.contains(key) {
            let k = choose|k: int| 0 <= k < keys.len() && keys[k] == key;
            if k < before.len() {
                assert(before[k] == key);
            }
            assert(last.key == key);
        }
        if exists|i: int| 0 <= i < properties.len() && (#[trigger] properties[i]).key == key {
            let i = choose|i: int|
                0 <= i < properties.len() && (#[trigger] properties[i]).key == key;
            if i < front.len() {
                assert(front[i].key == key);
            }
        }
    }
}

proof fn lemma_key_count(events: Seq<EventView>, filters: FilterView, key: Seq<char>)
    ensures
        tally::value_count(facet::key_samples(events, filters), key) == key_holders(
            events,
            filters,
            key,
        ),
    decreases events.len(),
{
    reveal(Seq::filter);
    if events.len() > 0 {
        let front = events.drop_last();
        lemma_key_count(front, filters, key);
        if filters.matches(events.last()) {
            let keys = facet::distinct_keys(events.last().properties);
            facet::lemma_distinct_keys(events.last().properties);
            facet::lemma_key_count(keys, key);
            lemma_distinct_keys_hold(events.last().properties, key);
            tally::lemma_value_count_add(
                facet::key_samples(front, filters),
                facet::plain_samples(keys),
                key,
            );
        }
    }
}

proof fn lemma_source_count(events: Seq<EventView>, filters: FilterView, source: Seq<char>)
    ensures
        tally::value_count(facet::source_samples(events, filters), source) == from_source(
            events,
            filters,
            source,
        ),
    decreases events.len(),
{
    reveal(Seq::filter);
    if events.len() > 0 {
        let front = events.drop_last();
        lemma_source_count(front, filters, source);
        let before = facet::source_samples(front, filters);
        let sample = SampleView {
            value: facet::lower_text(events.last().source),
            kind: None,
        };
        assert(before.push(sample).drop_last() =~= before);
    }
}

proof fn lemma_shows(event: EventView, key: Seq<char>, value: Seq<char>)
    ensures
        shows(event, key, value) == match model::property_value(event.properties, key) {
            Some(shown) => shown.display() == value,
            None => false,
        },
{
    model::lemma_property_index(event.properties, key);
    let k = model::property_index(event.properties, key);
    if shows(event, key, value) {
        let i = choose|i: int|
            0 <= i < event.properties.len() && (#[trigger] event.properties[i]).key == key
                && event.properties[i].value.display() == value && forall|j: int|
                0 <= j < i ==> (#[trigger] event.properties[j]).key != key;
        if k < i {
            assert(event.properties[k].key != key);
        }
        assert(k == i);
    }
    if k < event.properties.len() {
        assert(event.properties[k].key == key);
    }
}

proof fn lemma_value_count(
    events: Seq<EventView>,
    filters: FilterView,
    key: Seq<char>,
    value: Seq<char>,
)
    ensures
        tally::value_count(facet::value_samples(events, filters, key), value) == showing(
            events,
            filters,
            key,
            value,
        ),
    decreases events.len(),
{
    reveal(Seq::filter);
    if events.len() > 0 {
        let front = events.drop_last();
        lemma_value_count(front, filters, key, value);
        lemma_shows(events.last(), key, value);
        let before = facet::value_samples(front, filters, key);
        match model::property_value(events.last().properties, key) {
            Some(shown) => {
                let sample = SampleView {
                    value: shown.display(),
                    kind: Some(facet::type_of(shown)),
                };
                assert(before.push(sample).drop_last() =~= before);
            },
            None => {},
        }
    }
}

proof fn lemma_level_count(events: Seq<EventView>, filters: FilterView, level: Level)
    ensures
        facet::level_count(events, filters, level) == of_level(events, filters, level),
    decreases events.len(),
{
    reveal(Seq::filter);
    if events.len() > 0 {
        lemma_level_count(events.drop_last(), filters, level);
    }
}

proof fn lemma_match_count(events: Seq<EventView>, filters: FilterView)
    ensures
        facet::match_count(events, filters) == events.filter(
            |event: EventView| filters.matches(event),
        ).len(),
    decreases events.len(),
{
    reveal(Seq::filter);
    if events.len() > 0 {
        lemma_match_count(events.drop_last(), filters);
    }
}

proof fn lemma_newest(events: Seq<EventView>, limit: int)
    ensures
        limit >= 0 ==> facet::window_of(events, limit) == newest(events, limit),
{
    if limit >= 0 && events.len() > limit {
        assert(facet::window_of(events, limit) =~= newest(events, limit));
    }
}

/// The facet of the property keys counts, for every key, the newest records that
/// the filter shows and that have a property with the key, wherever it stands among
/// their properties; every key of such a record has a bucket.
pub proof fn law_keys_count_the_records_that_have_them(
    events: Seq<EventView>,
    record_limit: int,
    filters: FilterView,
    bucket_limit: int,
    property_key: Option<Seq<char>>,
)
    requires
        record_limit >= 0,
    ensures
        ({
            let group = facet::facets(events, record_limit, filters, bucket_limit, property_key)[2];
            let window = newest(events, record_limit);
            &&& group.facet == FacetKind::PropertyKey
            &&& group.property_key is None
            &&& !group.truncated ==> count_all(
                group.buckets,
                |key: Seq<char>| key_holders(window, filters, key),
            )
            &&& forall|i: int|
                0 <= i < group.buckets.len() && bucket_limit >= 0 ==> (
                #[trigger] group.buckets[i]).count == key_holders(
                    window,
                    filters,
                    group.buckets[i].value,
                )
        }),
{
    lemma_newest(events, record_limit);
    let window = newest(events, record_limit);
    let samples = facet::key_samples(window, filters);
    let number = |key: Seq<char>| key_holders(window, filters, key);
    assert forall|key: Seq<char>| tally::value_count(samples, key) == #[trigger] number(key) by {
        lemma_key_count(window, filters, key);
    }
    lemma_ranked(samples, number);
    let all = facet::ranked_buckets(samples);
    let group = facet::facets(events, record_limit, filters, bucket_limit, property_key)[2];
    assert forall|i: int| 0 <= i < group.buckets.len() && bucket_limit >= 0 implies (
    #[trigger] group.buckets[i]).count == key_holders(window, filters, group.buckets[i].value) by {
        assert(group.buckets[i] == all[i]);
        assert(all[i].count == number(all[i].value));
    }
}

/// The facet of the sources counts the newest records of each source that the
/// filter shows when its own condition on the source is left out.
pub proof fn law_sources_count_their_records(
    events: Seq<EventView>,
    record_limit: int,
    filters: FilterView,
    bucket_limit: int,
    property_key: Option<Seq<char>>,
)
    requires
        record_limit >= 0,
    ensures
        ({
            let group = facet::facets(events, record_limit, filters, bucket_limit, property_key)[0];
            let window = newest(events, record_limit);
            let eligible = FilterView { source: None, ..filters };
            &&& group.facet == FacetKind::Source
            &&& !group.truncated ==> count_all(
                group.buckets,
                |source: Seq<char>| from_source(window, eligible, source),
            )
        }),
{
    lemma_newest(events, record_limit);
    let window = newest(events, record_limit);
    let eligible = filters.sourceless();
    let samples = facet::source_samples(window, eligible);
    let number = |source: Seq<char>| from_source(window, eligible, source);
    assert forall|source: Seq<char>| tally::value_count(samples, source) == #[trigger] number(
        source,
    ) by {
        lemma_source_count(window, eligible, source);
    }
    lemma_ranked(samples, number);
}

/// The facet of a property's values counts the newest records that show each value,
/// of those that the filter shows when its own conditions on the property are left
/// out.
pub proof fn law_values_count_the_records_that_show_them(
    events: Seq<EventView>,
    record_limit: int,
    filters: FilterView,
    bucket_limit: int,
    key: Seq<char>,
)
    requires
        record_limit >= 0,
    ensures
        ({
            let groups = facet::facets(events, record_limit, filters, bucket_limit, Some(key));
            let group = groups[3];
            let window = newest(events, record_limit);
            &&& groups.len() == 4
            &&& facet::facets(events, record_limit, filters, bucket_limit, None).len() == 3
            &&& group.facet == FacetKind::PropertyValue
            &&& group.property_key == Some(key)
            &&& !group.truncated ==> count_all(
                group.buckets,
                |value: Seq<char>| showing(window, filters.keyless(key), key, value),
            )
        }),
{
    lemma_newest(events, record_limit);
    let window = newest(events, record_limit);
    let eligible = filters.keyless(key);
    let samples = facet::value_samples(window, eligible, key);
    let number = |value: Seq<char>| showing(window, eligible, key, value);
    assert forall|value: Seq<char>| tally::value_count(samples, value) == #[trigger] number(
        value,
    ) by {
        lemma_value_count(window, eligible, key, value);
    }
    lemma_ranked(samples, number);
}

/// The levels, the most serious first.
pub open spec fn levels() -> Seq<Level> {
    seq![
        Level::Fatal,
        Level::Error,
        Level::Warn,
        Level::Info,
        Level::Debug,
        Level::Trace,
        Level::Unknown,
    ]
}

/// The facet of the levels counts the newest records of each level that the filter
/// shows when its own condition on the level is left out, the most serious first.
pub proof fn law_levels_count_their_records(
    events: Seq<EventView>,
    record_limit: int,
    filters: FilterView,
    bucket_limit: int,
    property_key: Option<Seq<char>>,
)
    requires
        record_limit >= 0,
    ensures
        ({
            let group = facet::facets(events, record_limit, filters, bucket_limit, property_key)[1];
            let window = newest(events, record_limit);
            let eligible = FilterView { level: None, ..filters };
            let present = levels().filter(|level: Level| of_level(window, eligible, level) > 0);
            &&& group.facet == FacetKind::Level
            &&& group.total_buckets == present.len()
            &&& !group.truncated ==> group.buckets.len() == present.len()
            &&& !group.truncated ==> forall|i: int|
                0 <= i < present.len() ==> (#[trigger] group.buckets[i]).value
                    == model::level_name(present[i]) && group.buckets[i].count == of_level(
                    window,
                    eligible,
                    present[i],
                )
        }),
{
    lemma_newest(events, record_limit);
    let window = newest(events, record_limit);
    let eligible = filters.levelless();
    lemma_level_buckets(window, eligible, levels());
    assert(levels().skip(0) =~= levels());
    let all = facet::level_buckets(window, eligible);
    lemma_level_list(window, eligible);
}

/// The buckets of some levels, one after the other.
spec fn listed(events: Seq<EventView>, filters: FilterView, levels: Seq<Level>) -> Seq<BucketView>
    decreases levels.len(),
{
    if levels.len() == 0 {
        Seq::empty()
    } else {
        listed(events, filters, levels.drop_last()) + facet::level_bucket(
            events,
            filters,
            levels.last(),
        )
    }
}

proof fn lemma_level_list(events: Seq<EventView>, filters: FilterView)
    ensures
        listed(events, filters, levels()) == facet::level_buckets(events, filters),
{
    reveal_with_fuel(listed, 8);
    let all = levels();
    assert(all.drop_last() =~= seq![
        Level::Fatal,
        Level::Error,
        Level::Warn,
        Level::Info,
        Level::Debug,
        Level::Trace,
    ]);
    let six = all.drop_last();
    assert(six.drop_last() =~= seq![
        Level::Fatal,
        Level::Error,
        Level::Warn,
        Level::Info,
        Level::Debug,
    ]);
    let five = six.drop_last();
    assert(five.drop_last() =~= seq![Level::Fatal, Level::Error, Level::Warn, Level::Info]);
    let four = five.drop_last();
    assert(four.drop_last() =~= seq![Level::Fatal, Level::Error, Level::Warn]);
    let three = four.drop_last();
    assert(three.drop_last() =~= seq![Level::Fatal, Level::Error]);
    let two = three.drop_last();
    assert(two.drop_last() =~= seq![Level::Fatal]);
    let one = two.drop_last();
    assert(one.drop_last() =~= Seq::<Level>::empty());
    assert(listed(events, filters, one.drop_last()) =~= Seq::<BucketView>::empty());
    assert(listed(events, filters, one) =~= facet::level_bucket(events, filters, Level::Fatal));
}

proof fn lemma_level_buckets(events: Seq<EventView>, filters: FilterView, levels: Seq<Level>)
    ensures
        ({
            let present = levels.filter(|level: Level| of_level(events, filters, level) > 0);
            let buckets = listed(events, filters, levels);
            &&& buckets.len() == present.len()
            &&& forall|i: int|
                0 <= i < present.len() ==> (#[trigger] buckets[i]).value == model::level_name(
                    present[i],
                ) && buckets[i].count == of_level(events, filters, present[i])
        }),
    decreases levels.len(),
{
    reveal(Seq::filter);
    if levels.len() > 0 {
        lemma_level_buckets(events, filters, levels.drop_last());
        lemma_level_count(events, filters, levels.last());
    }
}

/// A facet says how many records there are, how many of them it looks at, how many
/// of those the filter shows, and how many it counts; the most frequent buckets are
/// shown, as many as are asked for.
pub proof fn law_facets_tell_what_they_count(
    events: Seq<EventView>,
    record_limit: int,
    filters: FilterView,
    bucket_limit: int,
    more: int,
    property_key: Option<Seq<char>>,
    k: int,
)
    requires
        record_limit >= 0,
        0 <= bucket_limit <= more,
        0 <= k < facet::facets(events, record_limit, filters, bucket_limit, property_key).len(),
    ensures
        ({
            let groups = facet::facets(events, record_limit, filters, bucket_limit, property_key);
            let wide = facet::facets(events, record_limit, filters, more, property_key);
            let window = newest(events, record_limit);
            let group = groups[k];
            &&& group.schema_version == 1
            &&& group.available_records == events.len()
            &&& group.window_records == window.len()
            &&& group.window_truncated == (events.len() > record_limit)
            &&& group.matched_records == window.filter(
                |event: EventView| filters.matches(event),
            ).len()
            &&& groups[2].eligible_records == group.matched_records
            &&& groups[0].eligible_records == window.filter(
                |event: EventView| (FilterView { source: None, ..filters }).matches(event),
            ).len()
            &&& groups[1].eligible_records == window.filter(
                |event: EventView| (FilterView { level: None, ..filters }).matches(event),
            ).len()
            &&& property_key is Some ==> groups[3].eligible_records == window.filter(
                |event: EventView| filters.keyless(property_key->0).matches(event),
            ).len()
            &&& group.total_buckets == wide[k].total_buckets
            &&& group.buckets.len() == if group.total_buckets <= bucket_limit {
                group.total_buckets
            } else {
                bucket_limit
            }
            &&& group.buckets == wide[k].buckets.take(group.buckets.len() as int)
            &&& group.truncated == (group.total_buckets > bucket_limit)
        }),
{
    lemma_newest(events, record_limit);
    let window = newest(events, record_limit);
    lemma_match_count(window, filters);
    lemma_match_count(window, filters.sourceless());
    lemma_match_count(window, filters.levelless());
    if property_key is Some {
        lemma_match_count(window, filters.keyless(property_key->0));
    }
    assert(k == 0 || k == 1 || k == 2 || k == 3);
    let group = facet::facets(events, record_limit, filters, bucket_limit, property_key)[k];
    let wide = facet::facets(events, record_limit, filters, more, property_key)[k];
    assert(group.buckets =~= wide.buckets.take(group.buckets.len() as int));
}

/// A source is counted in small letters, so that it is one source whatever its case.
pub proof fn law_sources_are_counted_whatever_their_case(a: Seq<char>, b: Seq<char>)
    ensures
        (facet::lower_text(a) == facet::lower_text(b)) == text::eq_ignore_case(a, b),
        text::eq_ignore_case(facet::lower_text(a), a),
        forall|i: int|
            0 <= i < a.len() ==> !('A' <= #[trigger] facet::lower_text(a)[i] <= 'Z'),
{
    let x = facet::lower_text(a);
    let y = facet::lower_text(b);
    assert forall|i: int| 0 <= i < a.len() implies !('A' <= #[trigger] x[i] <= 'Z')
        && text::lower(x[i]) == text::lower(a[i]) by {
        texts::law_case_is_that_of_letters(a[i]);
        texts::law_case_is_that_of_letters(x[i]);
    }
    if text::eq_ignore_case(a, b) {
        assert forall|i: int| 0 <= i < a.len() implies #[trigger] x[i] == y[i] by {
            assert(text::lower(a[i]) == text::lower(b[i]));
        }
        assert(x =~= y);
    }
    if x == y {
        assert(a.len() == x.len() && b.len() == y.len());
        assert forall|i: int| 0 <= i < a.len() implies text::lower(#[trigger] a[i]) == text::lower(
            b[i],
        ) by {
            assert(x[i] == text::lower(a[i]));
            assert(y[i] == text::lower(b[i]));
        }
        assert(text::eq_ignore_case(a, b));
    }
}

/// The type that a facet tells of a value.
pub open spec fn is_type_of(kind: FacetValueType, value: ValueView) -> bool {
    match value {
        ValueView::String(_) => kind == FacetValueType::String,
        ValueView::Number(_) => kind == FacetValueType::Number,
        ValueView::Bool(_) => kind == FacetValueType::Boolean,
        ValueView::Null => kind == FacetValueType::Null,
        ValueView::Text(_) => kind == FacetValueType::Text,
    }
}

/// Whether some record that a filter shows shows a value of a property with a type.
pub open spec fn has_type(
    events: Seq<EventView>,
    filters: FilterView,
    key: Seq<char>,
    value: Seq<char>,
    kind: FacetValueType,
) -> bool {
    exists|i: int|
        0 <= i < events.len() && filters.matches(#[trigger] events[i]) && model::property_value(
            events[i].properties,
            key,
        ) is Some && model::property_value(events[i].properties, key)->0.display() == value
            && is_type_of(kind, model::property_value(events[i].properties, key)->0)
}

/// A bucket of a property's values tells the types that the value has in the
/// records, and no others; strings come first, then numbers, truth values, nothing
/// and other texts.
pub proof fn law_buckets_tell_types(
    events: Seq<EventView>,
    filters: FilterView,
    key: Seq<char>,
    i: int,
    kind: FacetValueType,
)
    requires
        0 <= i < facet::ranked_buckets(facet::value_samples(events, filters, key)).len(),
    ensures
        ({
            let bucket = facet::ranked_buckets(facet::value_samples(events, filters, key))[i];
            &&& bucket.types.contains(kind) == has_type(events, filters, key, bucket.value, kind)
            &&& bucket.types == seq![
                FacetValueType::String,
                FacetValueType::Number,
                FacetValueType::Boolean,
                FacetValueType::Null,
                FacetValueType::Text,
            ].filter(|kind: FacetValueType| bucket.types.contains(kind))
        }),
{
    let samples = facet::value_samples(events, filters, key);
    tally::law_every_sample_is_counted(samples);
    let runs = tally::ranked(samples);
    let bucket = facet::ranked_buckets(samples)[i];
    assert(runs[i] == tally::run_of(samples, runs[i].value));
    let kinds = runs[i].kinds;
    lemma_has_kind(events, filters, key, bucket.value, kind);
    lemma_kind_list(kinds);
    lemma_kind_order(kinds);
}

proof fn lemma_kind_order(kinds: tally::Kinds)
    ensures
        ({
            let types = facet::kind_list(kinds);
            types == seq![
                FacetValueType::String,
                FacetValueType::Number,
                FacetValueType::Boolean,
                FacetValueType::Null,
                FacetValueType::Text,
            ].filter(|kind: FacetValueType| types.contains(kind))
        }),
{
    lemma_kind_list(kinds);
    let types = facet::kind_list(kinds);
    reveal(Seq::filter);
    let order = seq![
        FacetValueType::String,
        FacetValueType::Number,
        FacetValueType::Boolean,
        FacetValueType::Null,
        FacetValueType::Text,
    ];
    let told = |kind: FacetValueType| types.contains(kind);
    let four = order.drop_last();
    let three = four.drop_last();
    let two = three.drop_last();
    let one = two.drop_last();
    let none = one.drop_last();
    assert(order.last() == FacetValueType::Text);
    assert(four.last() == FacetValueType::Null);
    assert(three.last() == FacetValueType::Boolean);
    assert(two.last() == FacetValueType::Number);
    assert(one.last() == FacetValueType::String);
    assert(none.len() == 0);
    assert(none.filter(told) =~= Seq::<FacetValueType>::empty());
    assert(one.filter(told) =~= facet::kept(kinds.string, FacetValueType::String));
    assert(two.filter(told) =~= one.filter(told) + facet::kept(
        kinds.number,
        FacetValueType::Number,
    ));
    assert(three.filter(told) =~= two.filter(told) + facet::kept(
        kinds.boolean,
        FacetValueType::Boolean,
    ));
    assert(four.filter(told) =~= three.filter(told) + facet::kept(
        kinds.null,
        FacetValueType::Null,
    ));
    assert(order.filter(told) =~= four.filter(told) + facet::kept(
        kinds.text,
        FacetValueType::Text,
    ));
}

proof fn lemma_kind_list(kinds: tally::Kinds)
    ensures
        facet::kind_list(kinds).contains(FacetValueType::String) == kinds.string,
        facet::kind_list(kinds).contains(FacetValueType::Number) == kinds.number,
        facet::kind_list(kinds).contains(FacetValueType::Boolean) == kinds.boolean,
        facet::kind_list(kinds).contains(FacetValueType::Null) == kinds.null,
        facet::kind_list(kinds).contains(FacetValueType::Text) == kinds.text,
{
    let list = facet::kind_list(kinds);
    let a = facet::kept(kinds.string, FacetValueType::String);
    let b = a + facet::kept(kinds.number, FacetValueType::Number);
    let c = b + facet::kept(kinds.boolean, FacetValueType::Boolean);
    let d = c + facet::kept(kinds.null, FacetValueType::Null);
    assert(kinds.string ==> list[0] == FacetValueType::String);
    assert(kinds.number ==> list[a.len() as int] == FacetValueType::Number);
    assert(kinds.boolean ==> list[b.len() as int] == FacetValueType::Boolean);
    assert(kinds.null ==> list[c.len() as int] == FacetValueType::Null);
    assert(kinds.text ==> list[d.len() as int] == FacetValueType::Text);
}

proof fn lemma_has_kind(
    events: Seq<EventView>,
    filters: FilterView,
    key: Seq<char>,
    value: Seq<char>,
    kind: FacetValueType,
)
    ensures
        tally::has_kind(facet::value_samples(events, filters, key), value, kind) == has_type(
            events,
            filters,
            key,
            value,
            kind,
        ),
    decreases events.len(),
{
    let samples = facet::value_samples(events, filters, key);
    let wanted = SampleView { value, kind: Some(kind) };
    if events.len() > 0 {
        let front = events.drop_last();
        let before = facet::value_samples(front, filters, key);
        let last = events[events.len() - 1];
        lemma_has_kind(front, filters, key, value, kind);
        if before.contains(wanted) {
            let k = choose|k: int| 0 <= k < before.len() && before[k] == wanted;
            assert(samples[k] == wanted);
            let i = choose|i: int|
                0 <= i < front.len() && filters.matches(#[trigger] front[i])
                    && model::property_value(front[i].properties, key) is Some
                    && model::property_value(front[i].properties, key)->0.display() == value
                    && is_type_of(kind, model::property_value(front[i].properties, key)->0);
            assert(events[i] == front[i]);
            assert(has_type(events, filters, key, value, kind));
        }
        if samples.contains(wanted) && !before.contains(wanted) {
            let k = choose|k: int| 0 <= k < samples.len() && samples[k] == wanted;
            if k < before.len() {
                assert(before[k] == wanted);
            }
            assert(filters.matches(events[events.len() - 1]));
            assert(has_type(events, filters, key, value, kind));
        }
        if has_type(events, filters, key, value, kind) && !before.contains(wanted) {
            let i = choose|i: int|
                0 <= i < events.len() && filters.matches(#[trigger] events[i])
                    && model::property_value(events[i].properties, key) is Some
                    && model::property_value(events[i].properties, key)->0.display() == value
                    && is_type_of(kind, model::property_value(events[i].properties, key)->0);
            if i < front.len() {
                assert(front[i] == events[i]);
                assert(has_type(front, filters, key, value, kind));
            }
            assert(samples[before.len() as int] == wanted);
        }
    }
}

/// Facets are counted over the records and shown in the buckets that are asked for,
/// within their limits; their kinds and the types of values go by their names.
pub proof fn law_facets_have_limits_and_names()
    ensures
        facet::MIN_FACET_RECORD_LIMIT == 1,
        facet::DEFAULT_FACET_RECORD_LIMIT == 10000,
        facet::MAX_FACET_RECORD_LIMIT == 100000,
        facet::MIN_FACET_BUCKET_LIMIT == 1,
        facet::DEFAULT_FACET_BUCKET_LIMIT == 20,
        facet::MAX_FACET_BUCKET_LIMIT == 100,
        facet::kind_name(FacetKind::Source) == "source"@,
        facet::kind_name(FacetKind::Level) == "level"@,
        facet::kind_name(FacetKind::PropertyKey) == "property_key"@,
        facet::kind_name(FacetKind::PropertyValue) == "property_value"@,
        facet::name_of_type(FacetValueType::String) == "string"@,
        facet::name_of_type(FacetValueType::Number) == "number"@,
        facet::name_of_type(FacetValueType::Boolean) == "boolean"@,
        facet::name_of_type(FacetValueType::Null) == "null"@,
        facet::name_of_type(FacetValueType::Text) == "text"@,
{
}

/// A value is shown on one line: what can be shown is shown as it is, and what ends
/// a line, a tab and a backslash by a backslash and a sign.
pub proof fn law_values_are_shown_on_one_line(head: Seq<char>, tail: Seq<char>)
    requires
        forall|i: int|
            0 <= i < head.len() ==> !text::is_control(#[trigger] head[i]) && head[i] != '\\',
    ensures
        escape::escape(head) == head,
        escape::escape(head + seq!['\n'] + tail) == head + seq!['\\', 'n'] + escape::escape(tail),
        escape::escape(head + seq!['\r'] + tail) == head + seq!['\\', 'r'] + escape::escape(tail),
        escape::escape(head + seq!['\t'] + tail) == head + seq!['\\', 't'] + escape::escape(tail),
        escape::escape(head + seq!['\\'] + tail) == head + seq!['\\', '\\'] + escape::escape(tail),
        escape::escape(head + seq!['\u{1b}'] + tail) == head + seq![
            '\\',
            'u',
            '{',
            '0',
            '0',
            '1',
            'B',
            '}',
        ] + escape::escape(tail),
{
    lemma_shown_head(head, Seq::empty());
    assert(head + Seq::<char>::empty() =~= head);
    assert(escape::escape(Seq::<char>::empty()) =~= Seq::<char>::empty());
    lemma_one(head, '\n', tail);
    lemma_one(head, '\r', tail);
    lemma_one(head, '\t', tail);
    lemma_one(head, '\\', tail);
    lemma_one(head, '\u{1b}', tail);
    assert('\u{1b}' as int == 27);
    assert(escape::hex_digit(1) == '1');
    assert(escape::hex_digit(11) == 'B');
}

proof fn lemma_one(head: Seq<char>, c: char, tail: Seq<char>)
    requires
        forall|i: int|
            0 <= i < head.len() ==> !text::is_control(#[trigger] head[i]) && head[i] != '\\',
    ensures
        escape::escape(head + seq![c] + tail) == head + escape::escaped(c) + escape::escape(tail),
{
    let rest = seq![c] + tail;
    lemma_shown_head(head, rest);
    assert(head + rest =~= head + seq![c] + tail);
    assert(rest.drop_first() =~= tail);
    assert(head + (escape::escaped(c) + escape::escape(tail)) =~= head + escape::escaped(c)
        + escape::escape(tail));
}

proof fn lemma_shown_head(head: Seq<char>, rest: Seq<char>)
    requires
        forall|i: int|
            0 <= i < head.len() ==> !text::is_control(#[trigger] head[i]) && head[i] != '\\',
    ensures
        escape::escape(head + rest) == head + escape::escape(rest),
    decreases head.len(),
{
    if head.len() > 0 {
        let tail = head.drop_first();
        assert(!text::is_control(head[0]) && head[0] != '\\');
        assert forall|i: int| 0 <= i < tail.len() implies !text::is_control(#[trigger] tail[i])
            && tail[i] != '\\' by {
            assert(tail[i] == head[i + 1]);
        }
        lemma_shown_head(tail, rest);
        assert((head + rest).drop_first() =~= tail + rest);
        assert((head + rest)[0] == head[0]);
        assert(seq![head[0]] + (tail + escape::escape(rest)) =~= head + escape::escape(rest));
    } else {
        assert(head + rest =~= rest);
        assert(head + escape::escape(rest) =~= escape::escape(rest));
    }
}

} // verus!
