//! Log messages and properties written in JSON.
use crate::model::property::{parse_comma_entries, parse_word_properties};
use crate::model::structured::infer_level;
use crate::model::{self, append_properties, copy_properties, property, structured};
use crate::model::{Level, LogProperty, PropertyValue, PropertyView, ValueView};
use crate::text;
use crate::text::{
    chars_of, chars_skip, chars_strip_first, chars_strip_last, chars_take, chars_trim,
    chars_trim_end, chars_trim_end_newlines, copy_opt, copy_str, same, string_of,
};
use vstd::prelude::*;

verus! {

broadcast use text::lemma_views_push;

// ---------------------------------------------------------------------------
// Documents
// ---------------------------------------------------------------------------

/// A parsed JSON value of `serde_json`.
#[verifier::external_type_specification]
#[verifier::external_body]
pub struct ExJsonValue(serde_json::Value);

/// What a JSON value is. Numbers and arrays are known by their compact text.
pub enum JsonTree {
    Null,
    Bool(bool),
    Number(Seq<char>),
    String(Seq<char>),
    Array(Seq<char>),
    Object(Seq<JsonMember>),
}

/// A member of a JSON object.
pub struct JsonMember {
    pub key: Seq<char>,
    pub value: JsonTree,
}

/// What a `serde_json::Value` holds.
pub uninterp spec fn json_tree(value: serde_json::Value) -> JsonTree;

/// What `serde_json::from_str` reads from a text, where the text is JSON.
pub uninterp spec fn json_document(source: Seq<char>) -> Option<JsonTree>;

/// `serde_json::from_str` on a value of any shape: whether the text is JSON,
/// and what the value then holds, depends on the text alone.
#[verifier::external_body]
fn read_json(source: &str) -> (result: Option<serde_json::Value>)
    ensures
        match result {
            Some(value) => json_document(source@) == Some(json_tree(value)),
            None => json_document(source@) is None,
        },
{
    serde_json::from_str(source).ok()
}

/// A JSON value, one level deep.
pub enum JsonNode {
    Null,
    Bool(bool),
    Number(String),
    String(String),
    Array(String),
    Object(Vec<(String, serde_json::Value)>),
}

/// Whether a node shows what a value is.
pub open spec fn node_shows(node: JsonNode, tree: JsonTree) -> bool {
    match (node, tree) {
        (JsonNode::Null, JsonTree::Null) => true,
        (JsonNode::Bool(value), JsonTree::Bool(expected)) => value == expected,
        (JsonNode::Number(value), JsonTree::Number(expected)) => value@ == expected,
        (JsonNode::String(value), JsonTree::String(expected)) => value@ == expected,
        (JsonNode::Array(value), JsonTree::Array(expected)) => value@ == expected,
        (JsonNode::Object(items), JsonTree::Object(members)) => {
            &&& items@.len() == members.len()
            &&& forall|i: int|
                0 <= i < items@.len() ==> (#[trigger] items@[i]).0@ == members[i].key && json_tree(
                    items@[i].1,
                ) == members[i].value
        },
        _ => false,
    }
}

/// The variants of `serde_json::Value`, told apart: a string, number or
/// boolean as it is, an array as its compact text, an object as its members in
/// the order of the map. Numbers are written by `serde_json::Number`'s
/// `Display`, arrays by that of `serde_json::Value`.
#[verifier::external_body]
fn open_json(value: serde_json::Value) -> (node: JsonNode)
    ensures
        node_shows(node, json_tree(value)),
{
    match value {
        serde_json::Value::Null => JsonNode::Null,
        serde_json::Value::Bool(value) => JsonNode::Bool(value),
        serde_json::Value::Number(value) => JsonNode::Number(value.to_string()),
        serde_json::Value::String(value) => JsonNode::String(value),
        serde_json::Value::Array(_) => JsonNode::Array(value.to_string()),
        serde_json::Value::Object(members) => JsonNode::Object(members.into_iter().collect()),
    }
}

/// The number that a text is in JSON, as it is written again.
pub open spec fn json_number(source: Seq<char>) -> Option<Seq<char>> {
    match json_document(source) {
        Some(JsonTree::Number(value)) => Some(value),
        _ => None,
    }
}

/// Reads a number and writes it again.
pub fn rewrite_json_number(source: &str) -> (result: Option<String>)
    ensures
        text::opt_view(result) == json_number(source@),
{
    match read_json(source) {
        Some(value) => match open_json(value) {
            JsonNode::Number(value) => Some(value),
            _ => None,
        },
        None => None,
    }
}

// ---------------------------------------------------------------------------
// Flattening
// ---------------------------------------------------------------------------

/// The property value of a JSON value that is no object with members.
pub open spec fn leaf_value(tree: JsonTree) -> ValueView {
    match tree {
        JsonTree::Null => ValueView::Null,
        JsonTree::Bool(value) => ValueView::Bool(value),
        JsonTree::Number(value) => ValueView::Number(value),
        JsonTree::String(value) => ValueView::String(value),
        JsonTree::Array(value) => ValueView::Text(value),
        JsonTree::Object(_) => ValueView::Text("{}"@),
    }
}

/// The properties that a JSON value is under a key: the members of an object
/// each under the key, a dot and their own key; any other value as it is.
pub open spec fn flatten(key: Seq<char>, tree: JsonTree) -> Seq<PropertyView>
    decreases tree,
{
    match tree {
        JsonTree::Object(members) => if members.len() > 0 {
            flatten_members(key, members)
        } else {
            seq![PropertyView { key, value: leaf_value(tree) }]
        },
        _ => seq![PropertyView { key, value: leaf_value(tree) }],
    }
}

/// The properties that the members of an object are under a key.
pub open spec fn flatten_members(key: Seq<char>, members: Seq<JsonMember>) -> Seq<PropertyView>
    decreases members,
{
    if members.len() == 0 {
        Seq::empty()
    } else {
        let last = members[members.len() - 1];
        flatten_members(key, members.drop_last()) + flatten(key + "."@ + last.key, last.value)
    }
}

/// Appends the properties that a JSON value is under a key.
pub fn flatten_json_property(
    key: &str,
    value: serde_json::Value,
    properties: &mut Vec<LogProperty>,
)
    ensures
        text::views(final(properties)@) == text::views(old(properties)@) + flatten(
            key@,
            json_tree(value),
        ),
    decreases json_tree(value), 2int,
{
    let ghost tree = json_tree(value);
    flatten_node(key, open_json(value), properties, Ghost(tree));
}

fn flatten_node(
    key: &str,
    node: JsonNode,
    properties: &mut Vec<LogProperty>,
    Ghost(tree): Ghost<JsonTree>,
)
    requires
        node_shows(node, tree),
    ensures
        text::views(final(properties)@) == text::views(old(properties)@) + flatten(key@, tree),
    decreases tree, 1int,
{
    let ghost before = text::views(properties@);
    let leaf = match node {
        JsonNode::Null => PropertyValue::Null,
        JsonNode::Bool(value) => PropertyValue::Bool(value),
        JsonNode::Number(value) => PropertyValue::Number(value),
        JsonNode::String(value) => PropertyValue::String(value),
        JsonNode::Array(value) => PropertyValue::Text(value),
        JsonNode::Object(items) => {
            if items.len() > 0 {
                flatten_json_members(key, items, properties, Ghost(tree));
                return ;
            }
            PropertyValue::Text(copy_str("{}"))
        },
    };
    assert(leaf@ == leaf_value(tree));
    properties.push(LogProperty { key: copy_str(key), value: leaf });
    assert(text::views(properties@) =~= before + seq![
        PropertyView { key: key@, value: leaf_value(tree) },
    ]);
}

fn flatten_json_members(
    key: &str,
    items: Vec<(String, serde_json::Value)>,
    properties: &mut Vec<LogProperty>,
    Ghost(tree): Ghost<JsonTree>,
)
    requires
        tree is Object,
        node_shows(JsonNode::Object(items), tree),
    ensures
        text::views(final(properties)@) == text::views(old(properties)@) + flatten_members(
            key@,
            tree->Object_0,
        ),
    decreases tree, 0int,
{
    let ghost members = tree->Object_0;
    let ghost before = text::views(properties@);
    let ghost all = items@;
    let mut items = items;
    let mut done: Ghost<int> = Ghost(0);
    assert(before + flatten_members(key@, members.take(0)) =~= before);
    while items.len() > 0
        invariant
            members == tree->Object_0,
            tree is Object,
            0 <= done@ <= members.len(),
            all.len() == members.len(),
            items@ == all.skip(done@),
            forall|i: int|
                0 <= i < all.len() ==> (#[trigger] all[i]).0@ == members[i].key && json_tree(
                    all[i].1,
                ) == members[i].value,
            text::views(properties@) == before + flatten_members(key@, members.take(done@)),
        decreases items@.len(),
    {
        let item = items.remove(0);
        assert(item == all[done@]);
        let member_key = text::concat3(key, ".", item.0.as_str());
        let ghost member = members[done@];
        assert(decreases_to!(tree => members));
        assert(decreases_to!(members => members[done@]));
        assert(decreases_to!(member => member.value));
        flatten_json_property(member_key.as_str(), item.1, properties);
        proof {
            assert(members.take(done@ + 1).drop_last() =~= members.take(done@));
            assert(items@ =~= all.skip(done@ + 1));
            let head = flatten_members(key@, members.take(done@));
            let tail = flatten(key@ + "."@ + member.key, member.value);
            assert(before + head + tail =~= before + (head + tail));
            done@ = done@ + 1;
        }
    }
    assert(members.take(done@) =~= members);
}


// ---------------------------------------------------------------------------
// Objects
// ---------------------------------------------------------------------------

/// A member of a JSON object, with the text it holds where it is a string and
/// the properties it flattens to.
#[derive(Debug, PartialEq, Eq)]
pub struct JsonField {
    pub key: String,
    pub text: Option<String>,
    pub properties: Vec<LogProperty>,
}

/// What a JSON field is.
pub struct JsonFieldView {
    pub key: Seq<char>,
    pub text: Option<Seq<char>>,
    pub properties: Seq<PropertyView>,
}

impl View for JsonField {
    type V = JsonFieldView;

    open spec fn view(&self) -> JsonFieldView {
        JsonFieldView {
            key: self.key@,
            text: text::opt_view(self.text),
            properties: text::views(self.properties@),
        }
    }
}

/// The field that a member is.
pub open spec fn member_field(member: JsonMember) -> JsonFieldView {
    JsonFieldView {
        key: member.key,
        text: match member.value {
            JsonTree::String(value) => Some(value),
            _ => None,
        },
        properties: flatten(member.key, member.value),
    }
}

/// The fields of the JSON object that a text is.
pub open spec fn object_fields(source: Seq<char>) -> Option<Seq<JsonFieldView>> {
    match json_document(source) {
        Some(JsonTree::Object(members)) => Some(
            Seq::new(members.len(), |i: int| member_field(members[i])),
        ),
        _ => None,
    }
}

/// The views of an optional list of fields.
pub open spec fn fields_view(fields: Option<Vec<JsonField>>) -> Option<Seq<JsonFieldView>> {
    match fields {
        Some(fields) => Some(text::views(fields@)),
        None => None,
    }
}

fn field_from_value(key: String, value: serde_json::Value) -> (result: JsonField)
    ensures
        result@ == member_field(JsonMember { key: key@, value: json_tree(value) }),
{
    let ghost tree = json_tree(value);
    let node = open_json(value);
    let held = match &node {
        JsonNode::String(value) => Some(value.clone()),
        _ => None,
    };
    let mut properties: Vec<LogProperty> = Vec::new();
    assert(text::views(properties@) + flatten(key@, tree) =~= flatten(key@, tree));
    flatten_node(key.as_str(), node, &mut properties, Ghost(tree));
    JsonField { key, text: held, properties }
}

/// Reads the fields of the JSON object that a text is.
pub fn parse_json_object(input: &str) -> (result: Option<Vec<JsonField>>)
    ensures
        fields_view(result) == object_fields(input@),
{
    let value = match read_json(input) {
        Some(value) => value,
        None => {
            return None;
        },
    };
    let ghost tree = json_tree(value);
    match open_json(value) {
        JsonNode::Object(items) => {
            let ghost members = tree->Object_0;
            let ghost all = items@;
            let ghost expected = Seq::new(members.len(), |i: int| member_field(members[i]));
            let mut items = items;
            let mut fields: Vec<JsonField> = Vec::new();
            while items.len() > 0
                invariant
                    fields@.len() <= all.len(),
                    all.len() == members.len(),
                    items@ == all.skip(fields@.len() as int),
                    expected == Seq::new(members.len(), |i: int| member_field(members[i])),
                    forall|i: int|
                        0 <= i < all.len() ==> (#[trigger] all[i]).0@ == members[i].key
                            && json_tree(all[i].1) == members[i].value,
                    text::views(fields@) == expected.take(fields@.len() as int),
                decreases items@.len(),
            {
                let ghost done = fields@.len() as int;
                let item = items.remove(0);
                assert(item == all[done]);
                assert(items@ =~= all.skip(done + 1));
                let field = field_from_value(item.0, item.1);
                assert(field@ == expected[done]);
                fields.push(field);
                assert(expected.take(done + 1) =~= expected.take(done).push(expected[done]));
            }
            assert(expected.take(fields@.len() as int) =~= expected);
            Some(fields)
        },
        _ => None,
    }
}

/// The text of the first field with a key, where it is a string.
pub open spec fn field_text(fields: Seq<JsonFieldView>, key: Seq<char>) -> Option<Seq<char>>
    decreases fields.len(),
{
    if fields.len() == 0 {
        None
    } else if fields[0].key == key {
        fields[0].text
    } else {
        field_text(fields.drop_first(), key)
    }
}

/// The text of the field with a key.
pub fn json_string_field(fields: &Vec<JsonField>, key: &str) -> (result: Option<String>)
    ensures
        text::opt_view(result) == field_text(text::views(fields@), key@),
{
    let ghost all = text::views(fields@);
    let mut i: usize = 0;
    assert(all.skip(0) =~= all);
    while i < fields.len()
        invariant
            i <= fields@.len(),
            all == text::views(fields@),
            field_text(all, key@) == field_text(all.skip(i as int), key@),
        decreases fields@.len() - i,
    {
        if same(fields[i].key.as_str(), key) {
            return copy_opt(&fields[i].text);
        }
        assert(all.skip(i as int).drop_first() =~= all.skip(i + 1));
        i += 1;
    }
    None
}

/// The first of two optional texts that is there.
pub open spec fn or(first: Option<Seq<char>>, second: Option<Seq<char>>) -> Option<Seq<char>> {
    match first {
        Some(value) => Some(value),
        None => second,
    }
}

/// The message that an object holds.
pub open spec fn message_text(fields: Seq<JsonFieldView>) -> Option<Seq<char>> {
    or(
        field_text(fields, "message"@),
        or(field_text(fields, "msg"@), or(field_text(fields, "log"@), field_text(fields, "Log"@))),
    )
}

/// The level word that an object holds.
pub open spec fn level_text(fields: Seq<JsonFieldView>) -> Option<Seq<char>> {
    or(field_text(fields, "level"@), field_text(fields, "severity"@))
}

/// The timestamp that an object holds.
pub open spec fn timestamp_text(fields: Seq<JsonFieldView>) -> Option<Seq<char>> {
    or(
        field_text(fields, "timestamp"@),
        or(
            field_text(fields, "time"@),
            or(field_text(fields, "ts"@), field_text(fields, "@timestamp"@)),
        ),
    )
}

/// The level that an object states.
pub open spec fn stated_level(fields: Seq<JsonFieldView>) -> Option<Level> {
    match level_text(fields) {
        Some(word) => model::level_of(word),
        None => None,
    }
}

fn json_message(fields: &Vec<JsonField>) -> (result: Option<String>)
    ensures
        text::opt_view(result) == message_text(text::views(fields@)),
{
    match json_string_field(fields, "message") {
        Some(value) => Some(value),
        None => match json_string_field(fields, "msg") {
            Some(value) => Some(value),
            None => match json_string_field(fields, "log") {
                Some(value) => Some(value),
                None => json_string_field(fields, "Log"),
            },
        },
    }
}

fn json_timestamp(fields: &Vec<JsonField>) -> (result: Option<String>)
    ensures
        text::opt_view(result) == timestamp_text(text::views(fields@)),
{
    match json_string_field(fields, "timestamp") {
        Some(value) => Some(value),
        None => match json_string_field(fields, "time") {
            Some(value) => Some(value),
            None => match json_string_field(fields, "ts") {
                Some(value) => Some(value),
                None => json_string_field(fields, "@timestamp"),
            },
        },
    }
}

fn json_level(fields: &Vec<JsonField>) -> (result: Option<Level>)
    ensures
        result == stated_level(text::views(fields@)),
{
    let word = match json_string_field(fields, "level") {
        Some(value) => Some(value),
        None => json_string_field(fields, "severity"),
    };
    match word {
        Some(word) => Level::parse(word.as_str()),
        None => None,
    }
}

/// Whether a key is shown in a row of its own place, not among the properties.
pub open spec fn is_row_key(key: Seq<char>) -> bool {
    ||| key == "level"@
    ||| key == "severity"@
    ||| key == "message"@
    ||| key == "msg"@
    ||| key == "log"@
    ||| key == "Log"@
    ||| key == "timestamp"@
    ||| key == "time"@
    ||| key == "ts"@
    ||| key == "@timestamp"@
}

fn is_json_row_key(key: &str) -> (result: bool)
    ensures
        result == is_row_key(key@),
{
    same(key, "level") || same(key, "severity") || same(key, "message") || same(key, "msg") || same(
        key,
        "log",
    ) || same(key, "Log") || same(key, "timestamp") || same(key, "time") || same(key, "ts") || same(
        key,
        "@timestamp",
    )
}

/// The properties of an object, with or without those that have their own
/// place in a row.
pub open spec fn fields_properties(fields: Seq<JsonFieldView>, row_keys: bool) -> Seq<PropertyView>
    decreases fields.len(),
{
    if fields.len() == 0 {
        Seq::empty()
    } else if !row_keys && is_row_key(fields.last().key) {
        fields_properties(fields.drop_last(), row_keys)
    } else {
        fields_properties(fields.drop_last(), row_keys) + fields.last().properties
    }
}

/// The properties of an object, with or without those that have their own
/// place in a row.
pub fn json_object_properties(fields: &Vec<JsonField>, row_keys: bool) -> (result: Vec<LogProperty>)
    ensures
        text::views(result@) == fields_properties(text::views(fields@), row_keys),
{
    let ghost all = text::views(fields@);
    let mut properties: Vec<LogProperty> = Vec::new();
    let mut i: usize = 0;
    assert(text::views(properties@) =~= Seq::<PropertyView>::empty());
    while i < fields.len()
        invariant
            i <= fields@.len(),
            all == text::views(fields@),
            text::views(properties@) == fields_properties(all.take(i as int), row_keys),
        decreases fields@.len() - i,
    {
        assert(all.take(i + 1).drop_last() =~= all.take(i as int));
        if row_keys || !is_json_row_key(fields[i].key.as_str()) {
            append_properties(&mut properties, copy_properties(&fields[i].properties));
        }
        i += 1;
    }
    assert(all.take(i as int) =~= all);
    properties
}

// ---------------------------------------------------------------------------
// Logs
// ---------------------------------------------------------------------------

/// A log entry written as a JSON object.
#[derive(Debug, PartialEq, Eq)]
pub struct StructuredJsonLog {
    pub timestamp: Option<String>,
    pub level: Level,
    pub message: String,
    pub properties: Vec<LogProperty>,
}

/// What a log entry in JSON is.
pub struct JsonLogView {
    pub timestamp: Option<Seq<char>>,
    pub level: Level,
    pub message: Seq<char>,
    pub properties: Seq<PropertyView>,
}

impl View for StructuredJsonLog {
    type V = JsonLogView;

    open spec fn view(&self) -> JsonLogView {
        JsonLogView {
            timestamp: text::opt_view(self.timestamp),
            level: self.level,
            message: self.message@,
            properties: text::views(self.properties@),
        }
    }
}

/// The log entry that an object with a message is.
pub open spec fn plain_log(fields: Seq<JsonFieldView>) -> Option<JsonLogView> {
    match message_text(fields) {
        None => None,
        Some(message) => Some(
            JsonLogView {
                timestamp: timestamp_text(fields),
                level: match stated_level(fields) {
                    Some(level) => level,
                    None => structured::inferred(message),
                },
                message: text::trim_end_newlines(message),
                properties: fields_properties(fields, false),
            },
        ),
    }
}

/// The log entry of an object whose message is itself a log entry in JSON: the
/// inner entry, with what it lacks taken from the outer object.
pub open spec fn merged_log(fields: Seq<JsonFieldView>, inner: JsonLogView) -> JsonLogView {
    JsonLogView {
        timestamp: or(inner.timestamp, timestamp_text(fields)),
        level: if inner.level == Level::Unknown && stated_level(fields) is Some {
            stated_level(fields)->0
        } else {
            inner.level
        },
        message: inner.message,
        properties: fields_properties(fields, false) + inner.properties,
    }
}

/// The entry inside the message under a key. `size` is the length of the text
/// that holds the object; a string in it is shorter.
pub open spec fn embedded_log(fields: Seq<JsonFieldView>, key: Seq<char>, size: nat) -> Option<
    JsonLogView,
>
    decreases size, 0int,
{
    match field_text(fields, key) {
        Some(raw) => if raw.len() < size {
            match object_fields(text::trim(text::trim_end_newlines(raw))) {
                Some(inner) => match fields_log(inner, raw.len()) {
                    Some(log) => Some(merged_log(fields, log)),
                    None => None,
                },
                None => None,
            }
        } else {
            None
        },
        None => None,
    }
}

/// The log entry that the fields of an object in a text of a length are.
pub open spec fn fields_log(fields: Seq<JsonFieldView>, size: nat) -> Option<JsonLogView>
    decreases size, 1int,
{
    match embedded_log(fields, "message"@, size) {
        Some(log) => Some(log),
        None => match embedded_log(fields, "msg"@, size) {
            Some(log) => Some(log),
            None => match embedded_log(fields, "log"@, size) {
                Some(log) => Some(log),
                None => match embedded_log(fields, "Log"@, size) {
                    Some(log) => Some(log),
                    None => plain_log(fields),
                },
            },
        },
    }
}

/// The log entry that a message in JSON is.
pub open spec fn message_log(message: Seq<char>) -> Option<JsonLogView> {
    match object_fields(text::trim(message)) {
        Some(fields) => fields_log(fields, text::trim(message).len()),
        None => None,
    }
}

fn parse_embedded_json_log(fields: &Vec<JsonField>, key: &str, size: usize) -> (result: Option<
    StructuredJsonLog,
>)
    ensures
        text::opt_view(result) == embedded_log(text::views(fields@), key@, size as nat),
    decreases size, 0int,
{
    let raw = match json_string_field(fields, key) {
        Some(raw) => raw,
        None => {
            return None;
        },
    };
    let raw = chars_of(raw.as_str());
    if raw.len() >= size {
        return None;
    }
    let body = string_of(chars_trim(chars_trim_end_newlines(raw.as_slice())));
    let inner = match parse_json_object(body.as_str()) {
        Some(inner) => inner,
        None => {
            return None;
        },
    };
    match parse_json_log_object(&inner, raw.len()) {
        Some(log) => {
            let timestamp = match log.timestamp {
                Some(timestamp) => Some(timestamp),
                None => json_timestamp(fields),
            };
            let level = if log.level == Level::Unknown {
                match json_level(fields) {
                    Some(level) => level,
                    None => log.level,
                }
            } else {
                log.level
            };
            let mut properties = json_object_properties(fields, false);
            append_properties(&mut properties, log.properties);
            Some(StructuredJsonLog { timestamp, level, message: log.message, properties })
        },
        None => None,
    }
}

/// The log entry that an object is, taken from a text of `size` characters.
pub fn parse_json_log_object(fields: &Vec<JsonField>, size: usize) -> (result: Option<
    StructuredJsonLog,
>)
    ensures
        text::opt_view(result) == fields_log(text::views(fields@), size as nat),
    decreases size, 1int,
{
    match parse_embedded_json_log(fields, "message", size) {
        Some(log) => {
            return Some(log);
        },
        None => {},
    }
    match parse_embedded_json_log(fields, "msg", size) {
        Some(log) => {
            return Some(log);
        },
        None => {},
    }
    match parse_embedded_json_log(fields, "log", size) {
        Some(log) => {
            return Some(log);
        },
        None => {},
    }
    match parse_embedded_json_log(fields, "Log", size) {
        Some(log) => {
            return Some(log);
        },
        None => {},
    }
    match json_message(fields) {
        None => None,
        Some(message) => {
            let level = match json_level(fields) {
                Some(level) => level,
                None => infer_level(message.as_str()),
            };
            let chars = chars_of(message.as_str());
            Some(
                StructuredJsonLog {
                    timestamp: json_timestamp(fields),
                    level,
                    message: string_of(chars_trim_end_newlines(chars.as_slice())),
                    properties: json_object_properties(fields, false),
                },
            )
        },
    }
}

/// Reads a log entry from a message in JSON.
pub fn parse_json_log_message(message: &str) -> (result: Option<StructuredJsonLog>)
    ensures
        text::opt_view(result) == message_log(message@),
{
    let chars = chars_of(message);
    let trimmed = chars_trim(chars.as_slice());
    match parse_json_object(string_of(trimmed).as_str()) {
        Some(fields) => parse_json_log_object(&fields, trimmed.len()),
        None => None,
    }
}

// ---------------------------------------------------------------------------
// Properties in messages
// ---------------------------------------------------------------------------

/// The properties of a message that is an object, in JSON or in the looser
/// form of entries between commas.
pub open spec fn braced_properties(message: Seq<char>) -> Option<Seq<PropertyView>> {
    let trimmed = text::trim(message);
    match object_fields(trimmed) {
        Some(fields) => Some(fields_properties(fields, true)),
        None => match text::strip_first(trimmed, '{') {
            None => None,
            Some(open) => match text::strip_last(open, '}') {
                None => None,
                Some(body) => if text::trim(body).len() == 0 {
                    Some(Seq::empty())
                } else {
                    Some(property::entries_of(property::comma_parts(text::trim(body))))
                },
            },
        },
    }
}

/// The properties that stand in a message.
pub open spec fn message_properties(message: Seq<char>) -> Seq<PropertyView> {
    match braced_properties(message) {
        Some(properties) => properties,
        None => property::inline_properties(message),
    }
}

fn parse_inline_json_properties(message: &[char]) -> (result: Option<Vec<LogProperty>>)
    ensures
        property::list_view(result) == braced_properties(message@),
{
    let trimmed = chars_trim(message);
    match parse_json_object(string_of(trimmed).as_str()) {
        Some(fields) => {
            return Some(json_object_properties(&fields, true));
        },
        None => {},
    }
    match chars_strip_first(trimmed, '{') {
        None => None,
        Some(open) => match chars_strip_last(open, '}') {
            None => None,
            Some(body) => {
                let inner = chars_trim(body);
                if inner.len() == 0 {
                    let none: Vec<LogProperty> = Vec::new();
                    assert(text::views(none@) =~= Seq::<PropertyView>::empty());
                    Some(none)
                } else {
                    Some(parse_comma_entries(inner))
                }
            },
        },
    }
}

/// Reads the properties that stand in a message.
pub fn parse_inline_properties(message: &str) -> (result: Vec<LogProperty>)
    ensures
        text::views(result@) == message_properties(message@),
{
    let chars = chars_of(message);
    match parse_inline_json_properties(chars.as_slice()) {
        Some(properties) => properties,
        None => parse_word_properties(chars.as_slice()),
    }
}

/// Whether the text from `i` on is a JSON object with text before it.
pub open spec fn object_follows(message: Seq<char>, i: int) -> bool {
    &&& message[i] == '{'
    &&& text::trim_end(message.take(i)).len() > 0
    &&& object_fields(text::trim(message.skip(i))) is Some
}

/// The first index from `i` on at which an object ends the message, or the
/// length of the message.
pub open spec fn trailing_index(message: Seq<char>, i: int) -> int
    decreases message.len() - i,
{
    if i >= message.len() || object_follows(message, i) {
        i
    } else {
        trailing_index(message, i + 1)
    }
}

/// A message without the JSON object that ends it, and that object's
/// properties.
pub open spec fn without_trailing_object(message: Seq<char>) -> (Seq<char>, Seq<PropertyView>) {
    let i = trailing_index(message, 0);
    if i < message.len() {
        (
            text::trim_end(message.take(i)),
            fields_properties(object_fields(text::trim(message.skip(i)))->0, true),
        )
    } else {
        (message, Seq::empty())
    }
}

/// Tells the JSON object that ends a message from the text before it.
pub fn split_trailing_json_properties(message: &str) -> (result: (String, Vec<LogProperty>))
    ensures
        (result.0@, text::views(result.1@)) == without_trailing_object(message@),
{
    let chars = chars_of(message);
    let s = chars.as_slice();
    let mut i: usize = 0;
    while i < s.len()
        invariant
            i <= s@.len(),
            s@ == message@,
            trailing_index(s@, 0) == trailing_index(s@, i as int),
        decreases s@.len() - i,
    {
        if s[i] == '{' {
            let prefix = chars_trim_end(chars_take(s, i));
            if prefix.len() > 0 {
                let object = string_of(chars_trim(chars_skip(s, i)));
                match parse_json_object(object.as_str()) {
                    Some(fields) => {
                        assert(object_follows(s@, i as int));
                        return (string_of(prefix), json_object_properties(&fields, true));
                    },
                    None => {},
                }
            }
        }
        i += 1;
    }
    let none: Vec<LogProperty> = Vec::new();
    assert(text::views(none@) =~= Seq::<PropertyView>::empty());
    (copy_str(message), none)
}

} // verus!
