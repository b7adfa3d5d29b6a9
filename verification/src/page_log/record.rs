//! Records as they are handed out.
use crate::model::json::{self, rewrite_json_number};
use crate::model::{Level, LogProperty, PropertyValue, PropertyView, ValueView};
use crate::page_log::replay::{ParsedLogPageRecord, RecordView};
use crate::text::order::{self, str_before};
use crate::text::{self, copy_opt, same};
use vstd::prelude::*;

verus! {

broadcast use text::lemma_views_push;

/// The version of the records' form.
pub const SCHEMA_VERSION: u32 = 1;

/// The value of a property in a record. A number is one that JSON writes as it
/// was written in the log; any other number is a string.
#[derive(Debug, PartialEq, Eq)]
pub enum RecordValue {
    Null,
    Bool(bool),
    Number(String),
    String(String),
}

/// What a value in a record is.
pub enum RecordValueView {
    Null,
    Bool(bool),
    Number(Seq<char>),
    String(Seq<char>),
}

impl View for RecordValue {
    type V = RecordValueView;

    open spec fn view(&self) -> RecordValueView {
        match self {
            RecordValue::Null => RecordValueView::Null,
            RecordValue::Bool(value) => RecordValueView::Bool(*value),
            RecordValue::Number(value) => RecordValueView::Number(value@),
            RecordValue::String(value) => RecordValueView::String(value@),
        }
    }
}

/// A property in a record.
#[derive(Debug, PartialEq, Eq)]
pub struct RecordProperty {
    pub key: String,
    pub value: RecordValue,
}

/// What a property in a record is.
pub struct RecordPropertyView {
    pub key: Seq<char>,
    pub value: RecordValueView,
}

impl View for RecordProperty {
    type V = RecordPropertyView;

    open spec fn view(&self) -> RecordPropertyView {
        RecordPropertyView { key: self.key@, value: self.value@ }
    }
}

/// A record of a page.
#[non_exhaustive]
#[derive(Debug, PartialEq, Eq)]
pub struct LogPageRecord {
    pub schema_version: u32,
    pub source: String,
    pub timestamp: Option<String>,
    pub level: Level,
    pub message: String,
    pub properties: Vec<RecordProperty>,
    pub raw: String,
}

/// What a record of a page is.
pub struct PageRecordView {
    pub schema_version: int,
    pub source: Seq<char>,
    pub timestamp: Option<Seq<char>>,
    pub level: Level,
    pub message: Seq<char>,
    pub properties: Seq<RecordPropertyView>,
    pub raw: Seq<char>,
}

impl View for LogPageRecord {
    type V = PageRecordView;

    open spec fn view(&self) -> PageRecordView {
        PageRecordView {
            schema_version: self.schema_version as int,
            source: self.source@,
            timestamp: text::opt_view(self.timestamp),
            level: self.level,
            message: self.message@,
            properties: text::views(self.properties@),
            raw: self.raw@,
        }
    }
}

/// Whether a number is written in JSON as it stands.
pub open spec fn is_lossless(number: Seq<char>) -> bool {
    json::json_number(number) == Some(number)
}

/// The value in a record of a property's value, where it is known which numbers
/// JSON keeps as they stand.
pub open spec fn record_value(value: ValueView, lossless: bool) -> RecordValueView {
    match value {
        ValueView::String(value) => RecordValueView::String(value),
        ValueView::Text(value) => RecordValueView::String(value),
        ValueView::Number(value) => if lossless {
            RecordValueView::Number(value)
        } else {
            RecordValueView::String(value)
        },
        ValueView::Bool(value) => RecordValueView::Bool(value),
        ValueView::Null => RecordValueView::Null,
    }
}

/// The value in a record of a property's value.
pub open spec fn json_value(value: ValueView) -> RecordValueView {
    record_value(
        value,
        match value {
            ValueView::Number(number) => is_lossless(number),
            _ => false,
        },
    )
}

/// The place of a key among properties in order: behind those before it.
pub open spec fn key_place(properties: Seq<RecordPropertyView>, key: Seq<char>) -> int
    decreases properties.len(),
{
    if properties.len() == 0 || !order::before(properties[0].key, key) {
        0
    } else {
        1 + key_place(properties.drop_first(), key)
    }
}

/// The properties with another one, unless its key is there already.
pub open spec fn with_property(
    properties: Seq<RecordPropertyView>,
    property: PropertyView,
) -> Seq<RecordPropertyView> {
    let i = key_place(properties, property.key);
    if i < properties.len() && properties[i].key == property.key {
        properties
    } else {
        properties.insert(
            i,
            RecordPropertyView { key: property.key, value: json_value(property.value) },
        )
    }
}

/// The properties of a record: in the order of their keys, the first of each.
pub open spec fn ordered_properties(properties: Seq<PropertyView>) -> Seq<RecordPropertyView>
    decreases properties.len(),
{
    if properties.len() == 0 {
        Seq::empty()
    } else {
        with_property(ordered_properties(properties.drop_last()), properties.last())
    }
}

/// The record of an event and its lines.
pub open spec fn page_record(record: RecordView) -> PageRecordView {
    PageRecordView {
        schema_version: SCHEMA_VERSION as int,
        source: record.event.source,
        timestamp: record.event.timestamp,
        level: record.event.level,
        message: record.event.message,
        properties: ordered_properties(record.event.properties),
        raw: record.raw,
    }
}

/// The value of a number in a record, given whether JSON keeps it.
pub fn number_value(number: &str, lossless: bool) -> (result: RecordValue)
    ensures
        result@ == record_value(ValueView::Number(number@), lossless),
{
    if lossless {
        RecordValue::Number(text::copy_str(number))
    } else {
        RecordValue::String(text::copy_str(number))
    }
}

fn lossless_json_number(value: &str) -> (result: bool)
    ensures
        result == is_lossless(value@),
{
    match rewrite_json_number(value) {
        Some(written) => same(written.as_str(), value),
        None => false,
    }
}

/// The value in a record of a property's value.
pub fn property_json_value(value: &PropertyValue) -> (result: RecordValue)
    ensures
        result@ == json_value(value@),
{
    match value {
        PropertyValue::String(value) => RecordValue::String(value.clone()),
        PropertyValue::Text(value) => RecordValue::String(value.clone()),
        PropertyValue::Number(value) => number_value(
            value.as_str(),
            lossless_json_number(value.as_str()),
        ),
        PropertyValue::Bool(value) => RecordValue::Bool(*value),
        PropertyValue::Null => RecordValue::Null,
    }
}

fn find_place(properties: &Vec<RecordProperty>, key: &str) -> (result: usize)
    ensures
        result == key_place(text::views(properties@), key@),
        result <= properties@.len(),
{
    let ghost all = text::views(properties@);
    let mut i: usize = 0;
    assert(all.skip(0) =~= all);
    while i < properties.len()
        invariant
            i <= properties@.len(),
            all == text::views(properties@),
            key_place(all, key@) == i + key_place(all.skip(i as int), key@),
        decreases properties@.len() - i,
    {
        if !str_before(properties[i].key.as_str(), key) {
            return i;
        }
        assert(all.skip(i as int).drop_first() =~= all.skip(i + 1));
        i += 1;
    }
    i
}

/// The properties of a record.
pub fn record_properties(properties: &Vec<LogProperty>) -> (result: Vec<RecordProperty>)
    ensures
        text::views(result@) == ordered_properties(text::views(properties@)),
{
    let ghost all = text::views(properties@);
    let mut result: Vec<RecordProperty> = Vec::new();
    let mut i: usize = 0;
    assert(text::views(result@) =~= Seq::<RecordPropertyView>::empty());
    assert(all.take(0) =~= Seq::<PropertyView>::empty());
    while i < properties.len()
        invariant
            i <= properties@.len(),
            all == text::views(properties@),
            text::views(result@) == ordered_properties(all.take(i as int)),
        decreases properties@.len() - i,
    {
        assert(all.take(i + 1).drop_last() =~= all.take(i as int));
        let property = &properties[i];
        let ghost before = text::views(result@);
        let at = find_place(&result, property.key.as_str());
        if at >= result.len() || !same(result[at].key.as_str(), property.key.as_str()) {
            let entry = RecordProperty {
                key: property.key.clone(),
                value: property_json_value(&property.value),
            };
            result.insert(at, entry);
            assert(text::views(result@) =~= before.insert(at as int, entry@));
        }
        i += 1;
    }
    assert(all.take(i as int) =~= all);
    result
}

impl LogPageRecord {
    /// The record of an event and its lines.
    pub fn from_parsed(record: &ParsedLogPageRecord) -> (result: Self)
        ensures
            result@ == page_record(record@),
    {
        LogPageRecord {
            schema_version: SCHEMA_VERSION,
            source: record.event.source.clone(),
            timestamp: copy_opt(&record.event.timestamp),
            level: record.event.level,
            message: record.event.message.clone(),
            properties: record_properties(&record.event.properties),
            raw: record.raw.clone(),
        }
    }
}

// ---------------------------------------------------------------------------
// Laws
// ---------------------------------------------------------------------------

/// The first property with a key, or the number of properties.
pub open spec fn first_with(properties: Seq<PropertyView>, key: Seq<char>) -> int
    decreases properties.len(),
{
    if properties.len() == 0 || properties[0].key == key {
        0
    } else {
        1 + first_with(properties.drop_first(), key)
    }
}

/// Whether properties come in the order of their keys, no key twice.
pub open spec fn in_key_order(properties: Seq<RecordPropertyView>) -> bool {
    forall|i: int, j: int|
        0 <= i < j < properties.len() ==> order::before(
            (#[trigger] properties[i]).key,
            (#[trigger] properties[j]).key,
        )
}

pub proof fn lemma_key_place(properties: Seq<RecordPropertyView>, key: Seq<char>)
    ensures
        0 <= key_place(properties, key) <= properties.len(),
        key_place(properties, key) < properties.len() ==> !order::before(
            properties[key_place(properties, key)].key,
            key,
        ),
        forall|i: int|
            0 <= i < key_place(properties, key) ==> order::before(
                (#[trigger] properties[i]).key,
                key,
            ),
    decreases properties.len(),
{
    if properties.len() > 0 && order::before(properties[0].key, key) {
        let rest = properties.drop_first();
        lemma_key_place(rest, key);
        assert forall|i: int| 0 <= i < key_place(properties, key) implies order::before(
            (#[trigger] properties[i]).key,
            key,
        ) by {
            if i > 0 {
                assert(rest[i - 1] == properties[i]);
            }
        }
    }
}

proof fn lemma_first_with(properties: Seq<PropertyView>, key: Seq<char>)
    ensures
        0 <= first_with(properties, key) <= properties.len(),
        first_with(properties, key) < properties.len() ==> properties[first_with(
            properties,
            key,
        )].key == key,
        forall|i: int|
            0 <= i < first_with(properties, key) ==> (#[trigger] properties[i]).key != key,
    decreases properties.len(),
{
    if properties.len() > 0 && properties[0].key != key {
        let rest = properties.drop_first();
        lemma_first_with(rest, key);
        assert forall|i: int| 0 <= i < first_with(properties, key) implies (
        #[trigger] properties[i]).key != key by {
            if i > 0 {
                assert(rest[i - 1] == properties[i]);
            }
        }
    }
}

/// The properties of a record come in the order of their keys, no key twice,
/// and each has the first value that the event has for its key.
pub proof fn law_record_has_first_values(properties: Seq<PropertyView>)
    ensures
        in_key_order(ordered_properties(properties)),
        forall|i: int|
            #![trigger ordered_properties(properties)[i]]
            0 <= i < ordered_properties(properties).len() ==> {
                let entry = ordered_properties(properties)[i];
                let first = first_with(properties, entry.key);
                first < properties.len() && entry.value == json_value(properties[first].value)
            },
    decreases properties.len(),
{
    if properties.len() > 0 {
        let front = properties.drop_last();
        let property = properties.last();
        law_record_has_first_values(front);
        let before = ordered_properties(front);
        let after = ordered_properties(properties);
        let at = key_place(before, property.key);
        lemma_key_place(before, property.key);
        let known = at < before.len() && before[at].key == property.key;
        assert forall|i: int| at <= i < before.len() && !known implies order::before(
            property.key,
            (#[trigger] before[i]).key,
        ) by {
            order::lemma_before_total(property.key, before[at].key);
            if i > at {
                order::lemma_before_transitive(property.key, before[at].key, before[i].key);
            }
        }
        assert forall|i: int, j: int| 0 <= i < j < after.len() implies order::before(
            (#[trigger] after[i]).key,
            (#[trigger] after[j]).key,
        ) by {
            if known {
            } else {
                if i < at {
                    assert(after[i] == before[i]);
                } else if i > at {
                    assert(after[i] == before[i - 1]);
                }
                if j < at {
                    assert(after[j] == before[j]);
                } else if j > at {
                    assert(after[j] == before[j - 1]);
                }
            }
        }
        assert forall|i: int|
            #![trigger after[i]]
            0 <= i < after.len() implies {
            let entry = after[i];
            let first = first_with(properties, entry.key);
            first < properties.len() && entry.value == json_value(properties[first].value)
        } by {
            let entry = after[i];
            lemma_first_with(properties, entry.key);
            lemma_first_with(front, entry.key);
            if !known && i == at {
                // The key is new: no property before has it.
                if first_with(front, property.key) < front.len() {
                    lemma_key_is_recorded(front, first_with(front, property.key));
                    let k = choose|k: int|
                        0 <= k < before.len() && (#[trigger] before[k]).key == property.key;
                    order::lemma_before_total(before[k].key, property.key);
                    if k < at {
                        assert(order::before(before[k].key, property.key));
                    } else {
                        assert(order::before(property.key, before[k].key));
                    }
                }
                let first = first_with(properties, entry.key);
                if first < front.len() {
                    assert(front[first] == properties[first]);
                    if first_with(front, entry.key) > first {
                        assert(front[first].key != entry.key);
                    }
                }
                assert(properties[properties.len() - 1].key == entry.key);
            } else {
                let j = if known || i < at {
                    i
                } else {
                    i - 1
                };
                assert(before[j] == entry);
                let first = first_with(front, entry.key);
                assert(first < front.len());
                assert(properties[first] == front[first]);
                let other = first_with(properties, entry.key);
                if other < first {
                    assert(front[other] == properties[other]);
                    assert(front[other].key != entry.key);
                }
                if first < other {
                    assert(properties[first].key != entry.key);
                }
            }
        }
    }
}

/// Every key of an event has a property in its record.
proof fn lemma_key_is_recorded(properties: Seq<PropertyView>, i: int)
    requires
        0 <= i < properties.len(),
    ensures
        exists|k: int|
            0 <= k < ordered_properties(properties).len() && (#[trigger] ordered_properties(
                properties,
            )[k]).key == properties[i].key,
    decreases properties.len(),
{
    let front = properties.drop_last();
    let before = ordered_properties(front);
    let after = ordered_properties(properties);
    let at = key_place(before, properties.last().key);
    lemma_key_place(before, properties.last().key);
    if i == front.len() {
        assert(after[at].key == properties[i].key);
    } else {
        lemma_key_is_recorded(front, i);
        let k = choose|k: int|
            0 <= k < before.len() && (#[trigger] before[k]).key == front[i].key;
        if at < before.len() && before[at].key == properties.last().key {
            assert(after[k].key == front[i].key);
        } else if k < at {
            assert(after[k].key == front[i].key);
        } else {
            assert(after[k + 1].key == front[i].key);
        }
    }
}

} // verus!
