//! What lines written in JSON are read for.
use crate::model::json::{self, JsonFieldView, JsonMember, JsonTree};
use crate::model::line_laws::is_object;
use crate::model::{self, event, structured};
use crate::model::{Level, PropertyView, ValueView};
use crate::text;
use crate::text::laws as texts;
use vstd::prelude::*;

verus! {

/// Whether an object has a text under a key.
pub open spec fn has_text(members: Seq<JsonMember>, key: Seq<char>, value: Seq<char>) -> bool {
    exists|i: int|
        0 <= i < members.len() && (#[trigger] members[i]).key == key && members[i].value
            == JsonTree::String(value) && forall|j: int|
            0 <= j < i ==> (#[trigger] members[j]).key != key
}

/// Whether an object has no text under a key.
pub open spec fn lacks_text(members: Seq<JsonMember>, key: Seq<char>) -> bool {
    forall|i: int|
        0 <= i < members.len() && (#[trigger] members[i]).key == key ==> !(
        members[i].value is String)
}

/// Whether no text of an object is itself an object in JSON.
pub open spec fn holds_no_entry(members: Seq<JsonMember>) -> bool {
    forall|i: int|
        0 <= i < members.len() ==> ((#[trigger] members[i]).value matches JsonTree::String(value)
            ==> !is_object(text::trim(text::trim_end_newlines(value))))
}

/// The event of a line that is a JSON object.
pub open spec fn object_event(members: Seq<JsonMember>, message: Seq<char>) -> bool {
    json::json_document(text::trim(message)) == Some(JsonTree::Object(members))
}

/// The fields that the members of an object are.
pub open spec fn fields_of(members: Seq<JsonMember>) -> Seq<JsonFieldView> {
    Seq::new(members.len(), |i: int| json::member_field(members[i]))
}

proof fn lemma_field_text(members: Seq<JsonMember>, key: Seq<char>, value: Seq<char>)
    ensures
        has_text(members, key, value) ==> json::field_text(fields_of(members), key) == Some(value),
        lacks_text(members, key) ==> json::field_text(fields_of(members), key) is None,
    decreases members.len(),
{
    let fields = fields_of(members);
    if members.len() > 0 {
        let rest = members.drop_first();
        assert(fields.drop_first() =~= fields_of(rest));
        lemma_field_text(rest, key, value);
        assert(fields[0] == json::member_field(members[0]));
        if has_text(members, key, value) {
            let i = choose|i: int|
                0 <= i < members.len() && (#[trigger] members[i]).key == key && members[i].value
                    == JsonTree::String(value) && forall|j: int|
                    0 <= j < i ==> (#[trigger] members[j]).key != key;
            if i > 0 {
                assert(members[0].key != key);
                assert(rest[i - 1] == members[i]);
                assert forall|j: int| 0 <= j < i - 1 implies (#[trigger] rest[j]).key != key by {
                    assert(rest[j] == members[j + 1]);
                }
                assert(has_text(rest, key, value));
            }
        }
        if lacks_text(members, key) {
            assert forall|i: int| 0 <= i < rest.len() && (#[trigger] rest[i]).key == key implies !(
            rest[i].value is String) by {
                assert(rest[i] == members[i + 1]);
            }
        }
    }
}

/// A text of an object stands under its key, or there is none.
proof fn lemma_field_found(members: Seq<JsonMember>, key: Seq<char>)
    ensures
        json::field_text(fields_of(members), key) matches Some(value) ==> exists|i: int|
            0 <= i < members.len() && (#[trigger] members[i]).value == JsonTree::String(value),
    decreases members.len(),
{
    let fields = fields_of(members);
    if members.len() > 0 {
        let rest = members.drop_first();
        assert(fields.drop_first() =~= fields_of(rest));
        lemma_field_found(rest, key);
        assert(fields[0] == json::member_field(members[0]));
        match json::field_text(fields, key) {
            Some(value) => {
                if members[0].key == key {
                    assert(members[0].value == JsonTree::String(value));
                } else {
                    let i = choose|i: int|
                        0 <= i < rest.len() && (#[trigger] rest[i]).value == JsonTree::String(
                            value,
                        );
                    assert(members[i + 1] == rest[i]);
                }
            },
            None => {},
        }
    }
}

proof fn lemma_not_embedded(members: Seq<JsonMember>, key: Seq<char>, size: nat)
    requires
        holds_no_entry(members),
    ensures
        json::embedded_log(fields_of(members), key, size) is None,
{
    lemma_field_found(members, key);
    match json::field_text(fields_of(members), key) {
        Some(value) => {
            let i = choose|i: int|
                0 <= i < members.len() && (#[trigger] members[i]).value == JsonTree::String(value);
            assert(members[i].value == JsonTree::String(value));
            assert(!is_object(text::trim(text::trim_end_newlines(value))));
        },
        None => {},
    }
}

proof fn lemma_object_event(
    members: Seq<JsonMember>,
    sequence: u64,
    raw: Seq<char>,
    from: Seq<char>,
    message: Seq<char>,
)
    requires
        object_event(members, message),
        holds_no_entry(members),
    ensures
        json::message_log(message) == json::plain_log(fields_of(members)),
{
    let size = text::trim(message).len();
    lemma_not_embedded(members, "message"@, size);
    lemma_not_embedded(members, "msg"@, size);
    lemma_not_embedded(members, "log"@, size);
    lemma_not_embedded(members, "Log"@, size);
    assert(json::object_fields(text::trim(message)) == Some(fields_of(members)));
}

/// An object's message stands under `message`, and where no text does, under
/// `msg`, `log` or `Log`: the event shows it, without the line ends after it.
pub proof fn law_object_has_its_message(
    members: Seq<JsonMember>,
    sequence: u64,
    raw: Seq<char>,
    from: Seq<char>,
    message: Seq<char>,
    told: Seq<char>,
)
    requires
        object_event(members, message),
        holds_no_entry(members),
        has_text(members, "message"@, told) || (lacks_text(members, "message"@) && has_text(
            members,
            "msg"@,
            told,
        )) || (lacks_text(members, "message"@) && lacks_text(members, "msg"@) && has_text(
            members,
            "log"@,
            told,
        )) || (lacks_text(members, "message"@) && lacks_text(members, "msg"@) && lacks_text(
            members,
            "log"@,
        ) && has_text(members, "Log"@, told)),
    ensures
        ({
            let made = event::event_of(sequence, raw, from, message);
            &&& made.message == text::trim_end_newlines(told)
            &&& made.source == from
            &&& made.raw == raw
            &&& made.sequence == sequence
        }),
        json::message_text(fields_of(members)) == Some(told),
        json::message_log(message) == json::plain_log(fields_of(members)),
{
    lemma_object_event(members, sequence, raw, from, message);
    lemma_field_text(members, "message"@, told);
    lemma_field_text(members, "msg"@, told);
    lemma_field_text(members, "log"@, told);
    lemma_field_text(members, "Log"@, told);
}

/// An object's level is the one that the text under `level` names; where there is
/// no such text, the one that the text under `severity` names; and where neither
/// is there, that of the words of its message.
pub proof fn law_object_has_its_level(
    members: Seq<JsonMember>,
    sequence: u64,
    raw: Seq<char>,
    from: Seq<char>,
    message: Seq<char>,
    told: Seq<char>,
    word: Seq<char>,
)
    requires
        object_event(members, message),
        holds_no_entry(members),
        has_text(members, "message"@, told) || (lacks_text(members, "message"@) && has_text(
            members,
            "msg"@,
            told,
        )),
    ensures
        ({
            let level = event::event_of(sequence, raw, from, message).level;
            &&& has_text(members, "level"@, word) && model::level_of(word) is Some ==> level
                == model::level_of(word)->0
            &&& lacks_text(members, "level"@) && has_text(members, "severity"@, word)
                && model::level_of(word) is Some ==> level == model::level_of(word)->0
            &&& lacks_text(members, "level"@) && lacks_text(members, "severity"@) ==> level
                == structured::inferred(told)
            &&& has_text(members, "level"@, word) && model::level_of(word) is None ==> level
                == structured::inferred(told)
        }),
{
    law_object_has_its_message(members, sequence, raw, from, message, told);
    lemma_field_text(members, "level"@, word);
    lemma_field_text(members, "severity"@, word);
}

/// An object's time stands under `timestamp`, and where no text does, under
/// `time`, `ts` or `@timestamp`.
pub proof fn law_object_has_its_time(
    members: Seq<JsonMember>,
    sequence: u64,
    raw: Seq<char>,
    from: Seq<char>,
    message: Seq<char>,
    told: Seq<char>,
    time: Seq<char>,
)
    requires
        object_event(members, message),
        holds_no_entry(members),
        has_text(members, "message"@, told) || (lacks_text(members, "message"@) && has_text(
            members,
            "msg"@,
            told,
        )),
    ensures
        ({
            let timestamp = event::event_of(sequence, raw, from, message).timestamp;
            let no_first = lacks_text(members, "timestamp"@);
            let no_second = no_first && lacks_text(members, "time"@);
            let no_third = no_second && lacks_text(members, "ts"@);
            &&& has_text(members, "timestamp"@, time) ==> timestamp == Some(time)
            &&& no_first && has_text(members, "time"@, time) ==> timestamp == Some(time)
            &&& no_second && has_text(members, "ts"@, time) ==> timestamp == Some(time)
            &&& no_third && has_text(members, "@timestamp"@, time) ==> timestamp == Some(time)
            &&& no_third && lacks_text(members, "@timestamp"@) ==> timestamp is None
        }),
{
    law_object_has_its_message(members, sequence, raw, from, message, told);
    lemma_field_text(members, "timestamp"@, time);
    lemma_field_text(members, "time"@, time);
    lemma_field_text(members, "ts"@, time);
    lemma_field_text(members, "@timestamp"@, time);
}

/// An object with neither a text under `message` nor one under the names that
/// stand for it is no log entry.
pub proof fn law_object_without_message_is_no_entry(members: Seq<JsonMember>, message: Seq<char>)
    requires
        object_event(members, message),
        lacks_text(members, "message"@),
        lacks_text(members, "msg"@),
        lacks_text(members, "log"@),
        lacks_text(members, "Log"@),
    ensures
        json::message_log(message) is None,
{
    assert(json::object_fields(text::trim(message)) == Some(fields_of(members)));
    lemma_field_text(members, "message"@, message);
    lemma_field_text(members, "msg"@, message);
    lemma_field_text(members, "log"@, message);
    lemma_field_text(members, "Log"@, message);
}

/// The property that a JSON value is where it is no object.
pub open spec fn is_value_of(value: ValueView, tree: JsonTree) -> bool {
    match tree {
        JsonTree::Null => value == ValueView::Null,
        JsonTree::Bool(truth) => value == ValueView::Bool(truth),
        JsonTree::Number(number) => value == ValueView::Number(number),
        JsonTree::String(string) => value == ValueView::String(string),
        JsonTree::Array(items) => value == ValueView::Text(items),
        JsonTree::Object(_) => false,
    }
}

/// A value under a key is one property with that key; a member of an object under
/// a key has the key, a dot and its own key before it.
pub proof fn law_nested_values_have_dotted_keys(
    key: Seq<char>,
    tree: JsonTree,
    front: Seq<JsonMember>,
    member: JsonMember,
)
    ensures
        !(tree is Object) ==> json::flatten(key, tree).len() == 1 && json::flatten(key, tree)[0].key
            == key && is_value_of(json::flatten(key, tree)[0].value, tree),
        json::flatten(key, JsonTree::Object(front.push(member))) == json::flatten_members(
            key,
            front,
        ) + json::flatten(key + seq!['.'] + member.key, member.value),
        json::flatten_members(key, front).len() > 0 ==> json::flatten(key, JsonTree::Object(front))
            == json::flatten_members(key, front),
        json::flatten(key, JsonTree::Object(Seq::empty())) == seq![
            PropertyView { key, value: ValueView::Text("{}"@) },
        ],
{
    reveal_strlit(".");
    assert("."@ =~= seq!['.']);
    let all = front.push(member);
    assert(all.drop_last() =~= front);
    assert(all[all.len() - 1] == member);
    let tree = JsonTree::Object(all);
    assert(json::flatten(key, tree) == json::flatten_members(key, all));
}

/// Whether a key of an object has its own place in an event.
pub open spec fn has_own_place(key: Seq<char>) -> bool {
    ||| key == "level"@ || key == "severity"@
    ||| key == "message"@ || key == "msg"@ || key == "log"@ || key == "Log"@
    ||| key == "timestamp"@ || key == "time"@ || key == "ts"@ || key == "@timestamp"@
}

/// Every member of an object is a property of its event, but those that have their
/// own place; where all have, the event has no properties.
pub proof fn law_members_are_properties(
    members: Seq<JsonMember>,
    sequence: u64,
    raw: Seq<char>,
    from: Seq<char>,
    message: Seq<char>,
    told: Seq<char>,
    i: int,
)
    requires
        object_event(members, message),
        holds_no_entry(members),
        has_text(members, "message"@, told),
        0 <= i < members.len(),
    ensures
        ({
            let made = event::event_of(sequence, raw, from, message);
            &&& !has_own_place(members[i].key) ==> includes(
                made.properties,
                json::flatten(members[i].key, members[i].value),
            )
            &&& (forall|k: int|
                0 <= k < members.len() ==> has_own_place((#[trigger] members[k]).key))
                ==> made.properties.len() == 0
        }),
{
    law_object_has_its_message(members, sequence, raw, from, message, told);
    if !has_own_place(members[i].key) {
        lemma_member_properties(members, i, false);
    }
    if forall|k: int| 0 <= k < members.len() ==> has_own_place((#[trigger] members[k]).key) {
        lemma_no_properties(members);
    }
}

/// Whether some properties stand in a list of properties, one after the other.
pub open spec fn includes(all: Seq<PropertyView>, part: Seq<PropertyView>) -> bool {
    exists|at: int|
        0 <= at <= all.len() - part.len() && #[trigger] all.subrange(at, at + part.len()) == part
}

proof fn lemma_member_properties(members: Seq<JsonMember>, i: int, row_keys: bool)
    requires
        0 <= i < members.len(),
        row_keys || !has_own_place(members[i].key),
    ensures
        includes(
            json::fields_properties(fields_of(members), row_keys),
            json::flatten(members[i].key, members[i].value),
        ),
    decreases members.len(),
{
    let fields = fields_of(members);
    let front = members.drop_last();
    assert(fields.drop_last() =~= fields_of(front));
    assert(fields.last() == json::member_field(members.last()));
    let all = json::fields_properties(fields, row_keys);
    let part = json::flatten(members[i].key, members[i].value);
    let before = json::fields_properties(fields_of(front), row_keys);
    if i == members.len() - 1 {
        assert(all.subrange(before.len() as int, all.len() as int) =~= part);
    } else {
        lemma_member_properties(front, i, row_keys);
        let at = choose|at: int|
            0 <= at <= before.len() - part.len() && #[trigger] before.subrange(
                at,
                at + part.len(),
            ) == part;
        assert(all.subrange(at, at + part.len()) =~= before.subrange(at, at + part.len()));
    }
}

proof fn lemma_no_properties(members: Seq<JsonMember>)
    requires
        forall|k: int| 0 <= k < members.len() ==> has_own_place((#[trigger] members[k]).key),
    ensures
        json::fields_properties(fields_of(members), false).len() == 0,
    decreases members.len(),
{
    if members.len() > 0 {
        let front = members.drop_last();
        assert(fields_of(members).drop_last() =~= fields_of(front));
        assert(has_own_place(members[members.len() - 1].key));
        lemma_no_properties(front);
    }
}

/// A log entry within the message of another is the entry: its message is shown,
/// its time and its level count where it has them, and those of the outer object
/// where it does not; the properties of both are kept.
pub proof fn law_inner_entry_is_shown(
    members: Seq<JsonMember>,
    inner: Seq<JsonMember>,
    sequence: u64,
    raw: Seq<char>,
    from: Seq<char>,
    message: Seq<char>,
    told: Seq<char>,
    inner_told: Seq<char>,
    time: Seq<char>,
    word: Seq<char>,
)
    requires
        object_event(members, message),
        has_text(members, "message"@, told),
        told.len() < text::trim(message).len(),
        json::json_document(text::trim(text::trim_end_newlines(told))) == Some(
            JsonTree::Object(inner),
        ),
        holds_no_entry(inner),
        has_text(inner, "message"@, inner_told),
    ensures
        ({
            let made = event::event_of(sequence, raw, from, message);
            let timeless = lacks_text(inner, "timestamp"@) && lacks_text(inner, "time"@)
                && lacks_text(inner, "ts"@) && lacks_text(inner, "@timestamp"@);
            let levelless = lacks_text(inner, "level"@) && lacks_text(inner, "severity"@)
                && structured::inferred(inner_told) == Level::Unknown;
            &&& made.message == text::trim_end_newlines(inner_told)
            &&& has_text(inner, "timestamp"@, time) ==> made.timestamp == Some(time)
            &&& timeless && has_text(members, "timestamp"@, time) ==> made.timestamp == Some(time)
            &&& has_text(inner, "level"@, word) && model::level_of(word) is Some && model::level_of(
                word,
            )->0 != Level::Unknown ==> made.level == model::level_of(word)->0
            &&& levelless && has_text(members, "level"@, word) && model::level_of(word) is Some
                ==> made.level == model::level_of(word)->0
            &&& made.properties == json::fields_properties(fields_of(members), false)
                + json::fields_properties(fields_of(inner), false)
        }),
{
    assert(json::object_fields(text::trim(message)) == Some(fields_of(members)));
    let body = text::trim(text::trim_end_newlines(told));
    assert(json::object_fields(body) == Some(fields_of(inner)));
    lemma_field_text(members, "message"@, told);
    lemma_not_embedded(inner, "message"@, told.len());
    lemma_not_embedded(inner, "msg"@, told.len());
    lemma_not_embedded(inner, "log"@, told.len());
    lemma_not_embedded(inner, "Log"@, told.len());
    lemma_field_text(inner, "message"@, inner_told);
    lemma_field_text(inner, "timestamp"@, time);
    lemma_field_text(inner, "time"@, time);
    lemma_field_text(inner, "ts"@, time);
    lemma_field_text(inner, "@timestamp"@, time);
    lemma_field_text(members, "timestamp"@, time);
    lemma_field_text(inner, "level"@, word);
    lemma_field_text(inner, "severity"@, word);
    lemma_field_text(members, "level"@, word);
    assert(json::fields_log(fields_of(inner), told.len()) == json::plain_log(fields_of(inner)));
}

/// An object in JSON that ends a message is no part of the text, and all its
/// members are properties of the event.
pub proof fn law_trailing_object_is_taken_off(
    head: Seq<char>,
    object: Seq<char>,
    members: Seq<JsonMember>,
    i: int,
)
    requires
        texts::is_tight(head),
        !head.contains('{'),
        object.len() > 0 && object[0] == '{',
        texts::is_tight(object),
        json::json_document(object) == Some(JsonTree::Object(members)),
        0 <= i < members.len(),
    ensures
        ({
            let (shown, properties) = json::without_trailing_object(head + seq![' '] + object);
            &&& shown == head
            &&& includes(properties, json::flatten(members[i].key, members[i].value))
        }),
{
    let message = head + seq![' '] + object;
    let at = head.len() as int + 1;
    assert(message[at] == '{');
    assert(message.take(at) =~= head + seq![' ']);
    assert(message.skip(at) =~= object);
    texts::lemma_trim_end(head, seq![' ']);
    texts::law_trimming_keeps_the_text(Seq::empty(), object, Seq::empty());
    assert(json::object_fields(object) == Some(fields_of(members)));
    assert(json::object_follows(message, at));
    lemma_trailing(message, 0, at);
    lemma_member_properties(members, i, true);
}

proof fn lemma_trailing(message: Seq<char>, i: int, at: int)
    requires
        0 <= i <= at < message.len(),
        json::object_follows(message, at),
        forall|k: int| 0 <= k < at ==> #[trigger] message[k] != '{',
    ensures
        json::trailing_index(message, i) == at,
    decreases at - i,
{
    if i < at {
        assert(message[i] != '{');
        lemma_trailing(message, i + 1, at);
    }
}

/// A message that is an object in JSON has its members as properties.
pub proof fn law_object_message_has_its_members(
    message: Seq<char>,
    members: Seq<JsonMember>,
    i: int,
)
    requires
        object_event(members, message),
        0 <= i < members.len(),
    ensures
        includes(
            json::message_properties(message),
            json::flatten(members[i].key, members[i].value),
        ),
{
    assert(json::object_fields(text::trim(message)) == Some(fields_of(members)));
    lemma_member_properties(members, i, true);
}

/// A log entry is found within each of the texts that can be a message: under `msg`,
/// `log` and `Log` where the ones before are no texts.
pub proof fn law_inner_entry_is_found_under_each_name(
    members: Seq<JsonMember>,
    inner: Seq<JsonMember>,
    sequence: u64,
    raw: Seq<char>,
    from: Seq<char>,
    message: Seq<char>,
    told: Seq<char>,
    inner_told: Seq<char>,
)
    requires
        object_event(members, message),
        lacks_text(members, "message"@),
        has_text(members, "msg"@, told) || (lacks_text(members, "msg"@) && has_text(
            members,
            "log"@,
            told,
        )) || (lacks_text(members, "msg"@) && lacks_text(members, "log"@) && has_text(
            members,
            "Log"@,
            told,
        )),
        told.len() < text::trim(message).len(),
        json::json_document(text::trim(text::trim_end_newlines(told))) == Some(
            JsonTree::Object(inner),
        ),
        holds_no_entry(inner),
        has_text(inner, "message"@, inner_told),
    ensures
        event::event_of(sequence, raw, from, message).message == text::trim_end_newlines(
            inner_told,
        ),
        event::event_of(sequence, raw, from, message).properties == json::fields_properties(
            fields_of(members),
            false,
        ) + json::fields_properties(fields_of(inner), false),
{
    assert(json::object_fields(text::trim(message)) == Some(fields_of(members)));
    let body = text::trim(text::trim_end_newlines(told));
    assert(json::object_fields(body) == Some(fields_of(inner)));
    lemma_field_text(members, "message"@, told);
    lemma_field_text(members, "msg"@, told);
    lemma_field_text(members, "log"@, told);
    lemma_field_text(members, "Log"@, told);
    lemma_not_embedded(inner, "message"@, told.len());
    lemma_not_embedded(inner, "msg"@, told.len());
    lemma_not_embedded(inner, "log"@, told.len());
    lemma_not_embedded(inner, "Log"@, told.len());
    lemma_field_text(inner, "message"@, inner_told);
    assert(json::fields_log(fields_of(inner), told.len()) == json::plain_log(fields_of(inner)));
}

} // verus!
