//! Log events and the values they are made of.
pub mod clean;
pub mod event;
pub mod interpret;
pub mod json;
pub mod json_laws;
pub mod laws;
pub mod line_laws;
pub mod property;
pub mod source;
pub mod source_laws;
pub mod structured;

use crate::text;
use crate::text::{chars_of, chars_trim, copy_opt, copy_str, same, string_of};
use vstd::prelude::*;

verus! {

broadcast use text::lemma_views_push;

// ---------------------------------------------------------------------------
// Levels
// ---------------------------------------------------------------------------

/// How serious an event is.
#[derive(Debug, Clone, Copy, PartialEq, Eq, Structural)]
pub enum Level {
    Fatal,
    Error,
    Warn,
    Info,
    Debug,
    Trace,
    Unknown,
}

/// The level that a word names, up to ASCII case and surrounding white space.
pub open spec fn level_of(s: Seq<char>) -> Option<Level> {
    let t = text::trim(s);
    if text::eq_ignore_case(t, "fatal"@) {
        Some(Level::Fatal)
    } else if text::eq_ignore_case(t, "error"@) || text::eq_ignore_case(t, "err"@) {
        Some(Level::Error)
    } else if text::eq_ignore_case(t, "warn"@) || text::eq_ignore_case(t, "warning"@) {
        Some(Level::Warn)
    } else if text::eq_ignore_case(t, "info"@) || text::eq_ignore_case(t, "log"@) {
        Some(Level::Info)
    } else if text::eq_ignore_case(t, "debug"@) {
        Some(Level::Debug)
    } else if text::eq_ignore_case(t, "trace"@) || text::eq_ignore_case(t, "verbose"@) {
        Some(Level::Trace)
    } else if text::eq_ignore_case(t, "unknown"@) {
        Some(Level::Unknown)
    } else {
        None
    }
}

/// The name of a level.
pub open spec fn level_name(level: Level) -> Seq<char> {
    match level {
        Level::Fatal => "fatal"@,
        Level::Error => "error"@,
        Level::Warn => "warn"@,
        Level::Info => "info"@,
        Level::Debug => "debug"@,
        Level::Trace => "trace"@,
        Level::Unknown => "unknown"@,
    }
}

impl Level {
    /// Reads a level from a word.
    pub fn parse(input: &str) -> (result: Option<Self>)
        ensures
            result == level_of(input@),
    {
        level_from_chars(chars_of(input).as_slice())
    }

    /// The name of the level.
    pub fn as_str(self) -> (result: &'static str)
        ensures
            result@ == level_name(self),
    {
        match self {
            Self::Fatal => "fatal",
            Self::Error => "error",
            Self::Warn => "warn",
            Self::Info => "info",
            Self::Debug => "debug",
            Self::Trace => "trace",
            Self::Unknown => "unknown",
        }
    }
}

/// Reads a level from the characters of a word.
pub fn level_from_chars(input: &[char]) -> (result: Option<Level>)
    ensures
        result == level_of(input@),
{
    let t = chars_trim(input);
    if text::chars_eq_ignore_case(t, "fatal") {
        Some(Level::Fatal)
    } else if text::chars_eq_ignore_case(t, "error") || text::chars_eq_ignore_case(t, "err") {
        Some(Level::Error)
    } else if text::chars_eq_ignore_case(t, "warn") || text::chars_eq_ignore_case(t, "warning") {
        Some(Level::Warn)
    } else if text::chars_eq_ignore_case(t, "info") || text::chars_eq_ignore_case(t, "log") {
        Some(Level::Info)
    } else if text::chars_eq_ignore_case(t, "debug") {
        Some(Level::Debug)
    } else if text::chars_eq_ignore_case(t, "trace") || text::chars_eq_ignore_case(t, "verbose") {
        Some(Level::Trace)
    } else if text::chars_eq_ignore_case(t, "unknown") {
        Some(Level::Unknown)
    } else {
        None
    }
}

/// The name of a level reads back as that level.
pub proof fn law_level_name_reads_back(level: Level)
    ensures
        level_of(level_name(level)) == Some(level),
{
    reveal_strlit("fatal");
    reveal_strlit("error");
    reveal_strlit("err");
    reveal_strlit("warn");
    reveal_strlit("warning");
    reveal_strlit("info");
    reveal_strlit("log");
    reveal_strlit("debug");
    reveal_strlit("trace");
    reveal_strlit("verbose");
    reveal_strlit("unknown");
    let name = level_name(level);
    assert(text::trim(name) == name);
    assert(text::eq_ignore_case(name, name));
    assert(text::lower(name[0]) == name[0]);
    match level {
        Level::Trace => {
            assert(text::lower("debug"@[0]) == 'd');
        },
        _ => {},
    }
}

// ---------------------------------------------------------------------------
// Properties
// ---------------------------------------------------------------------------

/// The value of a property.
#[derive(Debug, PartialEq, Eq)]
pub enum PropertyValue {
    String(String),
    Number(String),
    Bool(bool),
    Null,
    Text(String),
}

/// What a property value is.
pub enum ValueView {
    String(Seq<char>),
    Number(Seq<char>),
    Bool(bool),
    Null,
    Text(Seq<char>),
}

impl View for PropertyValue {
    type V = ValueView;

    open spec fn view(&self) -> ValueView {
        match self {
            PropertyValue::String(value) => ValueView::String(value@),
            PropertyValue::Number(value) => ValueView::Number(value@),
            PropertyValue::Bool(value) => ValueView::Bool(*value),
            PropertyValue::Null => ValueView::Null,
            PropertyValue::Text(value) => ValueView::Text(value@),
        }
    }
}

impl ValueView {
    /// The value as it is shown.
    pub open spec fn display(self) -> Seq<char> {
        match self {
            ValueView::String(value) => value,
            ValueView::Number(value) => value,
            ValueView::Text(value) => value,
            ValueView::Bool(true) => "true"@,
            ValueView::Bool(false) => "false"@,
            ValueView::Null => "null"@,
        }
    }
}

impl Clone for PropertyValue {
    fn clone(&self) -> (result: Self)
        ensures
            result == *self,
    {
        match self {
            PropertyValue::String(value) => PropertyValue::String(value.clone()),
            PropertyValue::Number(value) => PropertyValue::Number(value.clone()),
            PropertyValue::Bool(value) => PropertyValue::Bool(*value),
            PropertyValue::Null => PropertyValue::Null,
            PropertyValue::Text(value) => PropertyValue::Text(value.clone()),
        }
    }
}

impl PropertyValue {
    /// The value as it is shown.
    pub fn as_display_str(&self) -> (result: &str)
        ensures
            result@ == self@.display(),
    {
        match self {
            PropertyValue::String(value) => value.as_str(),
            PropertyValue::Number(value) => value.as_str(),
            PropertyValue::Text(value) => value.as_str(),
            PropertyValue::Bool(true) => "true",
            PropertyValue::Bool(false) => "false",
            PropertyValue::Null => "null",
        }
    }

    /// The value as it is shown, as a string of its own.
    pub fn to_text(&self) -> (result: String)
        ensures
            result@ == self@.display(),
    {
        copy_str(self.as_display_str())
    }
}

/// A named value of an event.
#[derive(Debug, PartialEq, Eq)]
pub struct LogProperty {
    pub key: String,
    pub value: PropertyValue,
}

/// What a property is.
pub struct PropertyView {
    pub key: Seq<char>,
    pub value: ValueView,
}

impl View for LogProperty {
    type V = PropertyView;

    open spec fn view(&self) -> PropertyView {
        PropertyView { key: self.key@, value: self.value@ }
    }
}

impl Clone for LogProperty {
    fn clone(&self) -> (result: Self)
        ensures
            result == *self,
    {
        LogProperty { key: self.key.clone(), value: self.value.clone() }
    }
}

/// Properties equal to the given ones.
pub fn copy_properties(items: &Vec<LogProperty>) -> (result: Vec<LogProperty>)
    ensures
        result@ == items@,
{
    let mut result: Vec<LogProperty> = Vec::new();
    let mut i: usize = 0;
    while i < items.len()
        invariant
            i <= items@.len(),
            result@ == items@.take(i as int),
        decreases items@.len() - i,
    {
        result.push(items[i].clone());
        i += 1;
        assert(items@.take(i as int) =~= items@.take(i - 1).push(items@[i - 1]));
    }
    assert(items@.take(items@.len() as int) =~= items@);
    result
}

/// Appends properties.
pub fn append_properties(out: &mut Vec<LogProperty>, tail: Vec<LogProperty>)
    ensures
        text::views(final(out)@) == text::views(old(out)@) + text::views(tail@),
{
    let ghost added = tail@;
    let mut tail = tail;
    out.append(&mut tail);
    assert(text::views(out@) =~= text::views(old(out)@) + text::views(added));
}

// ---------------------------------------------------------------------------
// Source fields
// ---------------------------------------------------------------------------

/// The properties that may name an event's source, in order of preference.
#[derive(Debug, PartialEq, Eq)]
pub struct SourceConfig {
    pub configured_fields: Vec<String>,
    pub fields: Vec<String>,
}

/// What a source configuration is.
pub struct SourceConfigView {
    pub configured: Seq<Seq<char>>,
    pub fields: Seq<Seq<char>>,
}

impl View for SourceConfig {
    type V = SourceConfigView;

    open spec fn view(&self) -> SourceConfigView {
        SourceConfigView {
            configured: text::views(self.configured_fields@),
            fields: text::views(self.fields@),
        }
    }
}

/// The fields that are always considered.
pub open spec fn default_source_fields() -> Seq<Seq<char>> {
    seq!["source"@, "service"@, "app"@, "logger"@, "target"@, "component"@]
}

/// Adds a field, trimmed, unless it is empty or there already.
pub open spec fn add_field(fields: Seq<Seq<char>>, field: Seq<char>) -> Seq<Seq<char>> {
    let name = text::trim(field);
    if name.len() == 0 || fields.contains(name) {
        fields
    } else {
        fields.push(name)
    }
}

/// Adds some fields, one after the other.
pub open spec fn add_fields(fields: Seq<Seq<char>>, more: Seq<Seq<char>>) -> Seq<Seq<char>>
    decreases more.len(),
{
    if more.len() == 0 {
        fields
    } else {
        add_field(add_fields(fields, more.drop_last()), more.last())
    }
}

/// The configuration that some configured fields make.
pub open spec fn source_config(fields: Seq<Seq<char>>) -> SourceConfigView {
    let configured = add_fields(Seq::empty(), fields);
    SourceConfigView { configured, fields: add_fields(configured, default_source_fields()) }
}

/// Whether a list of strings holds a text.
pub fn strings_contain(items: &Vec<String>, wanted: &str) -> (result: bool)
    ensures
        result == text::views(items@).contains(wanted@),
{
    let mut i: usize = 0;
    while i < items.len()
        invariant
            i <= items@.len(),
            forall|j: int| 0 <= j < i ==> (#[trigger] items@[j])@ != wanted@,
        decreases items@.len() - i,
    {
        if same(items[i].as_str(), wanted) {
            assert(text::views(items@)[i as int] == wanted@);
            return true;
        }
        i += 1;
    }
    assert forall|j: int| 0 <= j < text::views(items@).len() implies text::views(items@)[j]
        != wanted@ by {
        assert(items@[j]@ != wanted@);
    }
    false
}

fn push_unique_field(fields: &mut Vec<String>, field: &str)
    ensures
        text::views(final(fields)@) == add_field(text::views(old(fields)@), field@),
{
    let chars = chars_of(field);
    let name = string_of(chars_trim(chars.as_slice()));
    if name.as_str().is_empty() || strings_contain(fields, name.as_str()) {
        return;
    }
    fields.push(name);
}

fn push_unique_fields(fields: &mut Vec<String>, more: &[String])
    ensures
        text::views(final(fields)@) == add_fields(text::views(old(fields)@), text::views(more@)),
{
    let mut i: usize = 0;
    let ghost all = text::views(more@);
    let ghost start = text::views(fields@);
    while i < more.len()
        invariant
            i <= more@.len(),
            all == text::views(more@),
            text::views(fields@) == add_fields(start, all.take(i as int)),
        decreases more@.len() - i,
    {
        push_unique_field(fields, more[i].as_str());
        i += 1;
        assert(all.take(i as int).drop_last() =~= all.take(i - 1));
        assert(all.take(i as int).last() == more@[i - 1]@);
    }
    assert(all.take(all.len() as int) =~= all);
}

fn default_source_field_names() -> (result: Vec<String>)
    ensures
        text::views(result@) == default_source_fields(),
{
    let mut result: Vec<String> = Vec::new();
    result.push(copy_str("source"));
    result.push(copy_str("service"));
    result.push(copy_str("app"));
    result.push(copy_str("logger"));
    result.push(copy_str("target"));
    result.push(copy_str("component"));
    assert(text::views(result@) =~= default_source_fields());
    result
}

impl Clone for SourceConfig {
    fn clone(&self) -> (result: Self)
        ensures
            result@ == self@,
    {
        SourceConfig {
            configured_fields: text::copy_strings(&self.configured_fields),
            fields: text::copy_strings(&self.fields),
        }
    }
}

impl Default for SourceConfig {
    fn default() -> (result: Self)
        ensures
            result@ == source_config(Seq::empty()),
    {
        let none: Vec<String> = Vec::new();
        assert(text::views(none@) =~= Seq::<Seq<char>>::empty());
        SourceConfig::with_fields(none.as_slice())
    }
}

impl SourceConfig {
    /// The configuration with the given fields before the default ones.
    pub fn with_fields(fields: &[String]) -> (result: Self)
        ensures
            result@ == source_config(text::views(fields@)),
    {
        let mut configured_fields: Vec<String> = Vec::new();
        assert(text::views(configured_fields@) =~= Seq::<Seq<char>>::empty());
        push_unique_fields(&mut configured_fields, fields);
        let mut all = text::copy_strings(&configured_fields);
        let defaults = default_source_field_names();
        push_unique_fields(&mut all, defaults.as_slice());
        SourceConfig { configured_fields, fields: all }
    }

    /// The configured fields.
    pub fn configured_fields(&self) -> (result: &Vec<String>)
        ensures
            text::views(result@) == self@.configured,
    {
        &self.configured_fields
    }

    /// All fields, in order of preference.
    pub fn fields(&self) -> (result: &Vec<String>)
        ensures
            text::views(result@) == self@.fields,
    {
        &self.fields
    }

    /// The configuration with more configured fields after its own.
    pub fn merged_with_configured_fields(&self, fields: &[String]) -> (result: Self)
        ensures
            result@ == source_config(add_fields(self@.configured, text::views(fields@))),
    {
        let mut merged = text::copy_strings(&self.configured_fields);
        push_unique_fields(&mut merged, fields);
        SourceConfig::with_fields(merged.as_slice())
    }
}

// ---------------------------------------------------------------------------
// Lines and events
// ---------------------------------------------------------------------------

/// A line with its source told apart from its message.
#[derive(Debug, PartialEq, Eq)]
pub struct ParsedLine {
    pub source: String,
    pub message: String,
    pub source_explicit: bool,
}

/// What a parsed line is.
pub struct ParsedLineView {
    pub source: Seq<char>,
    pub message: Seq<char>,
    pub source_explicit: bool,
}

impl View for ParsedLine {
    type V = ParsedLineView;

    open spec fn view(&self) -> ParsedLineView {
        ParsedLineView {
            source: self.source@,
            message: self.message@,
            source_explicit: self.source_explicit,
        }
    }
}

/// A message with its timestamp and level told apart.
#[derive(Debug, PartialEq, Eq)]
pub struct StructuredMessage {
    pub timestamp: Option<String>,
    pub level: Level,
    pub message: String,
}

/// What a structured message is.
pub struct StructuredMessageView {
    pub timestamp: Option<Seq<char>>,
    pub level: Level,
    pub message: Seq<char>,
}

impl View for StructuredMessage {
    type V = StructuredMessageView;

    open spec fn view(&self) -> StructuredMessageView {
        StructuredMessageView {
            timestamp: text::opt_view(self.timestamp),
            level: self.level,
            message: self.message@,
        }
    }
}

/// The line that introduces a block of properties.
#[derive(Debug, PartialEq, Eq)]
pub struct PropertyBlockHeader {
    pub timestamp: String,
    pub level: Level,
    pub source: Option<String>,
}

/// What a property block header is.
pub struct HeaderView {
    pub timestamp: Seq<char>,
    pub level: Level,
    pub source: Option<Seq<char>>,
}

impl View for PropertyBlockHeader {
    type V = HeaderView;

    open spec fn view(&self) -> HeaderView {
        HeaderView {
            timestamp: self.timestamp@,
            level: self.level,
            source: text::opt_view(self.source),
        }
    }
}

impl Clone for PropertyBlockHeader {
    fn clone(&self) -> (result: Self)
        ensures
            result == *self,
    {
        PropertyBlockHeader {
            timestamp: self.timestamp.clone(),
            level: self.level,
            source: copy_opt(&self.source),
        }
    }
}

/// One entry of a log.
#[derive(Debug, PartialEq, Eq)]
pub struct LogEvent {
    pub sequence: u64,
    pub source: String,
    pub timestamp: Option<String>,
    pub level: Level,
    pub raw: String,
    pub message: String,
    pub properties: Vec<LogProperty>,
}

/// What an event is.
pub struct EventView {
    pub sequence: u64,
    pub source: Seq<char>,
    pub timestamp: Option<Seq<char>>,
    pub level: Level,
    pub raw: Seq<char>,
    pub message: Seq<char>,
    pub properties: Seq<PropertyView>,
}

impl View for LogEvent {
    type V = EventView;

    open spec fn view(&self) -> EventView {
        EventView {
            sequence: self.sequence,
            source: self.source@,
            timestamp: text::opt_view(self.timestamp),
            level: self.level,
            raw: self.raw@,
            message: self.message@,
            properties: text::views(self.properties@),
        }
    }
}

impl Clone for LogEvent {
    fn clone(&self) -> (result: Self)
        ensures
            result@ == self@,
    {
        LogEvent {
            sequence: self.sequence,
            source: self.source.clone(),
            timestamp: copy_opt(&self.timestamp),
            level: self.level,
            raw: self.raw.clone(),
            message: self.message.clone(),
            properties: copy_properties(&self.properties),
        }
    }
}

/// The index of the first property with a key, or the number of properties.
pub open spec fn property_index(properties: Seq<PropertyView>, key: Seq<char>) -> int
    decreases properties.len(),
{
    if properties.len() == 0 || properties[0].key == key {
        0
    } else {
        1 + property_index(properties.drop_first(), key)
    }
}

/// The value of the first property with a key.
pub open spec fn property_value(properties: Seq<PropertyView>, key: Seq<char>) -> Option<
    ValueView,
> {
    let i = property_index(properties, key);
    if i < properties.len() {
        Some(properties[i].value)
    } else {
        None
    }
}

/// `property_index` is the first position that holds the key.
pub proof fn lemma_property_index(properties: Seq<PropertyView>, key: Seq<char>)
    ensures
        0 <= property_index(properties, key) <= properties.len(),
        property_index(properties, key) < properties.len() ==> properties[property_index(
            properties,
            key,
        )].key == key,
        forall|i: int|
            0 <= i < property_index(properties, key) ==> (#[trigger] properties[i]).key != key,
    decreases properties.len(),
{
    if properties.len() > 0 && properties[0].key != key {
        let rest = properties.drop_first();
        lemma_property_index(rest, key);
        assert forall|i: int| 0 <= i < property_index(properties, key) implies (
        #[trigger] properties[i]).key != key by {
            if i > 0 {
                assert(rest[i - 1] == properties[i]);
            }
        }
    }
}

impl LogEvent {
    /// Replaces the properties.
    pub fn set_properties(&mut self, properties: Vec<LogProperty>)
        ensures
            final(self)@ == (EventView { properties: text::views(properties@), ..old(self)@ }),
    {
        self.properties = properties;
    }

    /// The first property with a key.
    pub fn property(&self, key: &str) -> (result: Option<&LogProperty>)
        ensures
            match result {
                Some(property) => property@.key == key@ && property_value(
                    self@.properties,
                    key@,
                ) == Some(property@.value),
                None => property_value(self@.properties, key@) is None,
            },
    {
        let ghost all = text::views(self.properties@);
        let mut i: usize = 0;
        assert(all.skip(0) =~= all);
        while i < self.properties.len()
            invariant
                i <= self.properties@.len(),
                all == text::views(self.properties@),
                property_index(all, key@) == i + property_index(all.skip(i as int), key@),
            decreases self.properties@.len() - i,
        {
            if same(self.properties[i].key.as_str(), key) {
                return Some(&self.properties[i]);
            }
            assert(all.skip(i as int).drop_first() =~= all.skip(i + 1));
            i += 1;
        }
        None
    }
}

} // verus!
