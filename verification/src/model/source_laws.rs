//! What sources are told from.
use crate::model::source::{self, BuildKitView};
use crate::model::{self, clean, event, interpret, line_laws, structured};
use crate::model::{EventView, ParsedLineView, PropertyView};
use crate::text;
use crate::text::laws as texts;
use crate::text::laws::{is_blank, is_tight, is_word};
use crate::text::split;
use vstd::prelude::*;

verus! {

// ---------------------------------------------------------------------------
// Prefixes
// ---------------------------------------------------------------------------

/// A line `source | message` comes from that source.
pub proof fn law_name_before_bar_is_the_source(
    pad: Seq<char>,
    name: Seq<char>,
    gap: Seq<char>,
    message: Seq<char>,
)
    requires
        is_blank(pad),
        is_tight(name),
        !name.contains('|'),
        name[0] != '[',
        is_blank(gap),
        message.len() == 0 || !text::is_space(message[0]),
        clean::free_of_controls(pad + name + gap + seq!['|'] + (gap + message)),
    ensures
        source::source_message(pad + name + gap + seq!['|'] + (gap + message)) == (
            Some(name),
            message,
        ),
        source::compose_line(pad + name + gap + seq!['|'] + (gap + message)) == (ParsedLineView {
            source: name,
            message,
            source_explicit: true,
        }),
{
    let head = pad + name + gap;
    let line = head + seq!['|'] + (gap + message);
    clean::lemma_clean_keeps(line);
    assert(!head.contains('|')) by {
        if head.contains('|') {
            let i = choose|i: int| 0 <= i < head.len() && head[i] == '|';
            if i < pad.len() {
                assert(text::is_space(pad[i]));
            } else if i < pad.len() + name.len() {
                assert(name[i - pad.len()] == '|');
            } else {
                assert(text::is_space(gap[i - pad.len() - name.len()]));
            }
        }
    }
    texts::law_split_at_the_first_mark(head, gap + message, '|');
    texts::law_trimming_keeps_the_text(pad, name, gap);
    texts::lemma_trim_start(gap, message);
    if pad.len() > 0 {
        assert(text::is_space(pad[0]));
        assert(line[0] == pad[0]);
    } else {
        assert(line[0] == name[0]);
    }
}

/// A line `[source] message` comes from that source; brackets round a time name
/// none.
pub proof fn law_name_in_brackets_is_the_source(
    pad: Seq<char>,
    name: Seq<char>,
    gap: Seq<char>,
    message: Seq<char>,
)
    requires
        is_blank(pad),
        is_tight(name),
        !name.contains(']'),
        is_blank(gap),
        message.len() == 0 || !text::is_space(message[0]),
        clean::free_of_controls(seq!['['] + (pad + name + pad) + seq![']'] + (gap + message)),
    ensures
        ({
            let line = seq!['['] + (pad + name + pad) + seq![']'] + (gap + message);
            if structured::is_timestamp(name) {
                source::source_message(line) == (None::<Seq<char>>, line)
            } else {
                source::source_message(line) == (Some(name), message)
            }
        }),
{
    let inner = pad + name + pad;
    let line = seq!['['] + inner + seq![']'] + (gap + message);
    clean::lemma_clean_keeps(line);
    assert(line[0] == '[');
    assert(line.drop_first() =~= inner + seq![']'] + (gap + message));
    assert(!inner.contains(']')) by {
        if inner.contains(']') {
            let i = choose|i: int| 0 <= i < inner.len() && inner[i] == ']';
            if i < pad.len() {
                assert(text::is_space(pad[i]));
            } else if i < pad.len() + name.len() {
                assert(name[i - pad.len()] == ']');
            } else {
                assert(text::is_space(pad[i - pad.len() - name.len()]));
            }
        }
    }
    texts::law_split_at_the_first_mark(inner, gap + message, ']');
    texts::law_trimming_keeps_the_text(pad, name, pad);
    texts::lemma_trim_start(gap, message);
}

/// A line without a bar that begins with no bracket names no source in front of
/// its message.
pub proof fn law_line_without_prefix_is_its_message(line: Seq<char>)
    requires
        clean::free_of_controls(line),
        !line.contains('|'),
        line.len() == 0 || line[0] != '[',
    ensures
        source::source_message(line) == (None::<Seq<char>>, line),
        source::compose_status(line) is None ==> source::compose_line(line) == (ParsedLineView {
            source: "unknown"@,
            message: line,
            source_explicit: false,
        }),
{
    clean::lemma_clean_keeps(line);
    texts::law_split_at_the_first_mark(line, Seq::empty(), '|');
}

/// What compose says of a service.
pub open spec fn compose_words() -> Seq<Seq<char>> {
    seq![
        "Pulling"@,
        "Pulled"@,
        "Building"@,
        "Built"@,
        "Error"@,
        "Started"@,
        "Starting"@,
        "Healthy"@,
        "Waiting"@,
        "Exited"@,
        "Recreated"@,
        "Recreating"@,
        "Running"@,
        "Created"@,
        "Creating"@,
    ]
}

/// A line that begins with a name and what compose says of a service comes from
/// the service of that name, in whatever case the word is written; with any other
/// word it does not.
pub proof fn law_status_line_comes_from_its_service(
    name: Seq<char>,
    gap: Seq<char>,
    word: Seq<char>,
    colons: Seq<char>,
    rest: Seq<char>,
    i: int,
)
    requires
        line_laws::is_name(name),
        is_blank(gap) && gap.len() > 0,
        is_word(word),
        word.last() != ':',
        line_laws::is_colons(colons),
        rest.len() == 0 || text::is_space(rest[0]),
        0 <= i < compose_words().len(),
    ensures
        ({
            let line = name + gap + (word + colons + rest);
            &&& text::eq_ignore_case(word, compose_words()[i]) ==> source::compose_status(line)
                == Some(
                ParsedLineView {
                    source: name,
                    message: word + colons + rest,
                    source_explicit: true,
                },
            )
            &&& (forall|k: int|
                0 <= k < compose_words().len() ==> !text::eq_ignore_case(
                    word,
                    #[trigger] compose_words()[k],
                )) ==> source::compose_status(line) is None
        }),
{
    let token = word + colons;
    let tail = token + rest;
    let line = name + gap + tail;
    assert forall|k: int| 0 <= k < token.len() implies !text::is_space(#[trigger] token[k]) by {
        if k < word.len() {
            assert(token[k] == word[k]);
        } else {
            assert(token[k] == colons[k - word.len()]);
        }
    }
    assert forall|k: int| 0 <= k < name.len() implies !text::is_space(#[trigger] name[k])
        && text::is_name_char(name[k]) by {
        assert('a' <= name[k] <= 'z' || 'A' <= name[k] <= 'Z' || '0' <= name[k] <= '9' || name[k]
            == '_' || name[k] == '-' || name[k] == '.');
    }
    assert((gap + tail)[0] == gap[0]);
    texts::law_first_word_ends_at_white_space(Seq::empty(), name, gap + tail);
    assert(Seq::<char>::empty() + name + (gap + tail) =~= line);
    assert(line[0] == name[0]);
    assert(text::trim_start(line) == line);
    assert(tail[0] == token[0]);
    texts::lemma_trim_start(gap, tail);
    texts::law_first_word_ends_at_white_space(Seq::empty(), token, rest);
    assert(Seq::<char>::empty() + token + rest =~= tail);
    line_laws::lemma_trim_colons(word, colons);
    let words = compose_words();
    if source::is_compose_status(word) {
        assert(text::eq_ignore_case(word, words[0]) || text::eq_ignore_case(word, words[1])
            || text::eq_ignore_case(word, words[2]) || text::eq_ignore_case(word, words[3])
            || text::eq_ignore_case(word, words[4]) || text::eq_ignore_case(word, words[5])
            || text::eq_ignore_case(word, words[6]) || text::eq_ignore_case(word, words[7])
            || text::eq_ignore_case(word, words[8]) || text::eq_ignore_case(word, words[9])
            || text::eq_ignore_case(word, words[10]) || text::eq_ignore_case(word, words[11])
            || text::eq_ignore_case(word, words[12]) || text::eq_ignore_case(word, words[13])
            || text::eq_ignore_case(word, words[14]));
    }
    if text::eq_ignore_case(word, words[i]) {
        assert(i == 0 || i == 1 || i == 2 || i == 3 || i == 4 || i == 5 || i == 6 || i == 7 || i
            == 8 || i == 9 || i == 10 || i == 11 || i == 12 || i == 13 || i == 14);
    }
}

/// A line from a service that is named in front of it is shown with that service
/// only, whatever its properties say; one from nowhere comes from the first of the
/// fields that is a property of it and not blank.
pub proof fn law_source_is_taken_from_properties(
    event: EventView,
    fields: Seq<Seq<char>>,
    i: int,
)
    requires
        0 <= i < fields.len(),
        model::property_value(event.properties, fields[i]) is Some,
        text::trim(model::property_value(event.properties, fields[i])->0.display()).len() > 0,
        forall|j: int|
            0 <= j < i ==> model::property_value(event.properties, #[trigger] fields[j]) is None,
    ensures
        event.source != "unknown"@ ==> interpret::promoted(event, fields) == event,
        event.source == "unknown"@ ==> interpret::promoted(event, fields) == (EventView {
            source: text::trim(
                model::property_value(event.properties, fields[i])->0.display(),
            ),
            ..event
        }),
{
    lemma_named_source(event.properties, fields, 0, i);
}

proof fn lemma_named_source(
    properties: Seq<PropertyView>,
    fields: Seq<Seq<char>>,
    at: int,
    i: int,
)
    requires
        0 <= at <= i < fields.len(),
        model::property_value(properties, fields[i]) is Some,
        text::trim(model::property_value(properties, fields[i])->0.display()).len() > 0,
        forall|j: int|
            0 <= j < i ==> model::property_value(properties, #[trigger] fields[j]) is None,
    ensures
        interpret::named_source(properties, fields, at) == Some(
            text::trim(model::property_value(properties, fields[i])->0.display()),
        ),
    decreases i - at,
{
    if at < i {
        assert(model::property_value(properties, fields[at]) is None);
        lemma_named_source(properties, fields, at + 1, i);
    }
}

/// The fields that may name a source are those that are configured, in their
/// order, and after them the usual ones.
pub proof fn law_configured_fields_come_first(fields: Seq<Seq<char>>)
    requires
        fields.no_duplicates(),
        forall|i: int| 0 <= i < fields.len() ==> is_tight(#[trigger] fields[i]),
    ensures
        ({
            let config = model::source_config(fields);
            &&& config.configured == fields
            &&& config.fields.len() >= fields.len()
            &&& config.fields.take(fields.len() as int) == fields
            &&& config.fields.contains("source"@)
            &&& config.fields.contains("service"@)
            &&& config.fields.contains("app"@)
            &&& config.fields.contains("logger"@)
            &&& config.fields.contains("target"@)
            &&& config.fields.contains("component"@)
        }),
        model::source_config(Seq::empty()).fields == seq![
            "source"@,
            "service"@,
            "app"@,
            "logger"@,
            "target"@,
            "component"@,
        ],
{
    lemma_add_all(fields);
    lemma_default_fields();
    lemma_add_defaults(fields);
    lemma_add_all(model::default_source_fields());
    lemma_add_all(Seq::empty());
}

proof fn lemma_default_fields()
    ensures
        model::default_source_fields().no_duplicates(),
        forall|i: int|
            0 <= i < model::default_source_fields().len() ==> is_tight(
                #[trigger] model::default_source_fields()[i],
            ),
{
    reveal_strlit("source");
    reveal_strlit("service");
    reveal_strlit("app");
    reveal_strlit("logger");
    reveal_strlit("target");
    reveal_strlit("component");
    let all = model::default_source_fields();
    assert("source"@[1] == 'o' && "service"@[1] == 'e');
    assert("source"@.len() == 6 && "service"@.len() == 7 && "app"@.len() == 3 && "logger"@.len()
        == 6 && "target"@.len() == 6 && "component"@.len() == 9);
    assert("source"@[0] == 's' && "logger"@[0] == 'l' && "target"@[0] == 't');
    assert forall|i: int| 0 <= i < all.len() implies is_tight(#[trigger] all[i]) by {
        assert(i == 0 || i == 1 || i == 2 || i == 3 || i == 4 || i == 5);
    }
}

proof fn lemma_add_all(fields: Seq<Seq<char>>)
    requires
        fields.no_duplicates(),
        forall|i: int| 0 <= i < fields.len() ==> is_tight(#[trigger] fields[i]),
    ensures
        model::add_fields(Seq::empty(), fields) == fields,
    decreases fields.len(),
{
    if fields.len() > 0 {
        let front = fields.drop_last();
        lemma_add_all(front);
        let last = fields[fields.len() - 1];
        assert(is_tight(last));
        texts::law_trimming_keeps_the_text(Seq::empty(), last, Seq::empty());
        assert(!front.contains(last)) by {
            if front.contains(last) {
                let i = choose|i: int| 0 <= i < front.len() && front[i] == last;
                assert(fields[i] == last);
            }
        }
        assert(front.push(last) =~= fields);
    } else {
        assert(fields =~= Seq::<Seq<char>>::empty());
    }
}

proof fn lemma_add(fields: Seq<Seq<char>>, field: Seq<char>)
    requires
        is_tight(field),
    ensures
        ({
            let after = model::add_field(fields, field);
            &&& after.contains(field)
            &&& after.len() >= fields.len()
            &&& after.take(fields.len() as int) == fields
            &&& forall|other: Seq<char>| fields.contains(other) ==> #[trigger] after.contains(other)
        }),
{
    texts::law_trimming_keeps_the_text(Seq::empty(), field, Seq::empty());
    let after = model::add_field(fields, field);
    assert(after.take(fields.len() as int) =~= fields);
    if !fields.contains(field) {
        assert(after[fields.len() as int] == field);
    }
    assert forall|other: Seq<char>| fields.contains(other) implies #[trigger] after.contains(
        other,
    ) by {
        let i = choose|i: int| 0 <= i < fields.len() && fields[i] == other;
        assert(after[i] == other);
    }
}

proof fn lemma_add_defaults(fields: Seq<Seq<char>>)
    ensures
        ({
            let all = model::add_fields(fields, model::default_source_fields());
            &&& all.len() >= fields.len()
            &&& all.take(fields.len() as int) == fields
            &&& all.contains("source"@)
            &&& all.contains("service"@)
            &&& all.contains("app"@)
            &&& all.contains("logger"@)
            &&& all.contains("target"@)
            &&& all.contains("component"@)
        }),
{
    lemma_default_fields();
    let names = model::default_source_fields();
    lemma_add_many(fields, names);
    assert(names[0] == "source"@);
    assert(names[1] == "service"@);
    assert(names[2] == "app"@);
    assert(names[3] == "logger"@);
    assert(names[4] == "target"@);
    assert(names[5] == "component"@);
}

proof fn lemma_add_many(fields: Seq<Seq<char>>, more: Seq<Seq<char>>)
    requires
        forall|i: int| 0 <= i < more.len() ==> is_tight(#[trigger] more[i]),
    ensures
        ({
            let all = model::add_fields(fields, more);
            &&& all.len() >= fields.len()
            &&& all.take(fields.len() as int) == fields
            &&& forall|i: int| 0 <= i < more.len() ==> all.contains(#[trigger] more[i])
        }),
    decreases more.len(),
{
    if more.len() > 0 {
        let front = more.drop_last();
        let before = model::add_fields(fields, front);
        lemma_add_many(fields, front);
        let last = more[more.len() - 1];
        assert(is_tight(last));
        lemma_add(before, last);
        let all = model::add_fields(fields, more);
        assert(all.take(fields.len() as int) =~= before.take(fields.len() as int)) by {
            assert(all.take(before.len() as int) == before);
            assert forall|k: int| 0 <= k < fields.len() implies all[k] == before[k] by {
                assert(all.take(before.len() as int)[k] == all[k]);
            }
        }
        assert forall|i: int| 0 <= i < more.len() implies all.contains(#[trigger] more[i]) by {
            if i < front.len() {
                assert(front[i] == more[i]);
                assert(before.contains(front[i]));
            }
        }
    } else {
        assert(model::add_fields(fields, more) == fields);
        assert(fields.take(fields.len() as int) =~= fields);
    }
}

// ---------------------------------------------------------------------------
// Builds
// ---------------------------------------------------------------------------

/// A step of an image build that names a service, a stage and a count is a line of
/// that service, and its message leaves the service out.
pub proof fn law_build_step_comes_from_its_service(
    number: Seq<char>,
    service: Seq<char>,
    stage: Seq<char>,
    done: Seq<char>,
    total: Seq<char>,
    rest: Seq<char>,
)
    requires
        crate::model::laws::is_digits(number),
        line_laws::is_name(service),
        !text::eq_ignore_case(service, "internal"@),
        !text::eq_ignore_case(service, "auth"@),
        is_word(stage),
        !stage.contains(']'),
        crate::model::laws::is_digits(done),
        crate::model::laws::is_digits(total),
        is_tight(rest),
    ensures
        ({
            let count = done + seq!['/'] + total;
            let line = seq!['#'] + number + seq![' ', '['] + (service + seq![' '] + (stage + seq![
                ' ',
            ] + count)) + seq![']'] + (seq![' '] + rest);
            source::buildkit_step_clean(line) == Some(
                BuildKitView {
                    step_id: seq!['#'] + number,
                    source: Some(service),
                    message: seq!['#'] + number + seq![' ', '['] + (stage + seq![' '] + count)
                        + seq![']', ' '] + rest,
                },
            )
        }),
{
    reveal_strlit("#");
    reveal_strlit(" [");
    reveal_strlit("] ");
    reveal_strlit(" ");
    assert("#"@ =~= seq!['#']);
    assert(" ["@ =~= seq![' ', '[']);
    assert("] "@ =~= seq![']', ' ']);
    assert(" "@ =~= seq![' ']);
    let count = done + seq!['/'] + total;
    let kept = stage + seq![' '] + count;
    let context = service + seq![' '] + kept;
    let line = seq!['#'] + number + seq![' ', '['] + context + seq![']'] + (seq![' '] + rest);
    assert forall|i: int| 0 <= i < service.len() implies !text::is_space(#[trigger] service[i])
        && text::is_name_char(service[i]) && service[i] != ']' by {
        assert('a' <= service[i] <= 'z' || 'A' <= service[i] <= 'Z' || '0' <= service[i] <= '9'
            || service[i] == '_' || service[i] == '-' || service[i] == '.');
    }
    assert forall|i: int| 0 <= i < number.len() implies !text::is_space(#[trigger] number[i])
        && text::is_digit(number[i]) by {
        assert('0' <= number[i] <= '9');
    }
    assert forall|i: int| 0 <= i < count.len() implies !text::is_space(#[trigger] count[i])
        && count[i] != ']' by {
        if i < done.len() {
            assert('0' <= done[i] <= '9');
        } else if i > done.len() {
            assert('0' <= total[i - done.len() - 1] <= '9');
        }
    }
    assert(is_word(count));
    let after_hash = number + (seq![' ', '['] + context + seq![']'] + (seq![' '] + rest));
    assert(line[0] == '#');
    assert(text::trim_start(line) == line);
    assert(line.drop_first() =~= after_hash);
    let bracket = seq!['['] + context + seq![']'] + (seq![' '] + rest);
    assert(seq![' '] + bracket =~= seq![' ', '['] + context + seq![']'] + (seq![' '] + rest));
    texts::law_first_word_ends_at_white_space(Seq::empty(), number, seq![' '] + bracket);
    assert(after_hash.take(number.len() as int) =~= number);
    assert(after_hash.skip(number.len() as int) =~= seq![' '] + bracket);
    texts::lemma_trim_start(seq![' '], bracket);
    assert(bracket.drop_first() =~= context + seq![']'] + (seq![' '] + rest));
    assert(!context.contains(']')) by {
        if context.contains(']') {
            let i = choose|i: int| 0 <= i < context.len() && context[i] == ']';
            if i < service.len() {
                assert(service[i] == ']');
            } else if i > service.len() && i < service.len() + 1 + stage.len() {
                assert(stage[i - service.len() - 1] == ']');
            } else if i > service.len() + 1 + stage.len() {
                assert(count[i - service.len() - stage.len() - 2] == ']');
            }
        }
    }
    texts::law_split_at_the_first_mark(context, seq![' '] + rest, ']');
    assert(context[0] == service[0]);
    assert(context.last() == count[count.len() - 1]);
    texts::law_trimming_keeps_the_text(Seq::empty(), context, Seq::empty());
    lemma_context_words(service, stage, count);
    let parts = split::words(context);
    assert(parts =~= seq![service, stage, count]);
    assert(!done.contains('/'));
    texts::law_split_at_the_first_mark(done, total, '/');
    assert(text::all_digits(done)) by {
        assert forall|i: int| 0 <= i < done.len() implies text::is_digit(#[trigger] done[i]) by {
            assert('0' <= done[i] <= '9');
        }
    }
    assert(text::all_digits(total)) by {
        assert forall|i: int| 0 <= i < total.len() implies text::is_digit(#[trigger] total[i]) by {
            assert('0' <= total[i] <= '9');
        }
    }
    assert(source::context_source(context) == Some(service));
    texts::law_joining_separates(seq![stage], count, " "@);
    assert(parts.drop_first() =~= seq![stage].push(count));
    assert(split::join(seq![stage].push(count), " "@) == stage + seq![' '] + count);
    texts::lemma_trim_start(seq![' '], rest);
    assert(text::all_digits(number));
}

proof fn lemma_context_words(service: Seq<char>, stage: Seq<char>, count: Seq<char>)
    requires
        is_word(service),
        is_word(stage),
        is_word(count),
    ensures
        split::words(service + seq![' '] + (stage + seq![' '] + count)) == seq![
            service,
            stage,
            count,
        ],
{
    let none = Seq::<char>::empty();
    let first = seq![' '] + (stage + seq![' '] + count);
    let second = seq![' '] + count;
    texts::law_words_stand_between_white_space(none, service, first);
    texts::law_words_stand_between_white_space(seq![' '], stage, second);
    texts::law_words_stand_between_white_space(seq![' '], count, none);
    texts::law_words_stand_between_white_space(none, count, none);
    assert(none + service + first =~= service + seq![' '] + (stage + seq![' '] + count));
    assert(seq![' '] + stage + second =~= first);
    assert(seq![' '] + count + none =~= second);
    assert(split::words(none) =~= Seq::<Seq<char>>::empty());
    assert(split::words(service + seq![' '] + (stage + seq![' '] + count)) =~= seq![
        service,
        stage,
        count,
    ]);
}

/// A step of an image build that names a service as its own doing is a line of the
/// service; one that is doing of the builder is of none, and a step without brackets
/// is shown as it is.
pub proof fn law_internal_steps_are_told(
    number: Seq<char>,
    service: Seq<char>,
    rest: Seq<char>,
)
    requires
        crate::model::laws::is_digits(number),
        line_laws::is_name(service),
        !text::eq_ignore_case(service, "internal"@),
        !text::eq_ignore_case(service, "auth"@),
        is_tight(rest),
        rest[0] != '[',
    ensures
        ({
            let line = seq!['#'] + number + seq![' ', '['] + (service + seq![' '] + "internal"@)
                + seq![']'] + (seq![' '] + rest);
            source::buildkit_step_clean(line) == Some(
                BuildKitView {
                    step_id: seq!['#'] + number,
                    source: Some(service),
                    message: seq!['#'] + number + seq![' ', '['] + "internal"@ + seq![']', ' ']
                        + rest,
                },
            )
        }),
        ({
            let line = seq!['#'] + number + (seq![' '] + rest);
            source::buildkit_step_clean(line) == Some(
                BuildKitView { step_id: seq!['#'] + number, source: None, message: line },
            )
        }),
{
    reveal_strlit("#");
    reveal_strlit(" [");
    reveal_strlit("] ");
    reveal_strlit(" ");
    reveal_strlit("internal");
    assert("#"@ =~= seq!['#']);
    assert(" ["@ =~= seq![' ', '[']);
    assert("] "@ =~= seq![']', ' ']);
    assert(" "@ =~= seq![' ']);
    let none = Seq::<char>::empty();
    let internal = "internal"@;
    assert(internal =~= seq!['i', 'n', 't', 'e', 'r', 'n', 'a', 'l']);
    let context = service + seq![' '] + internal;
    let line = seq!['#'] + number + seq![' ', '['] + context + seq![']'] + (seq![' '] + rest);
    assert forall|i: int| 0 <= i < service.len() implies !text::is_space(#[trigger] service[i])
        && text::is_name_char(service[i]) && service[i] != ']' by {
        assert('a' <= service[i] <= 'z' || 'A' <= service[i] <= 'Z' || '0' <= service[i] <= '9'
            || service[i] == '_' || service[i] == '-' || service[i] == '.');
    }
    assert forall|i: int| 0 <= i < number.len() implies !text::is_space(#[trigger] number[i])
        && text::is_digit(number[i]) by {
        assert('0' <= number[i] <= '9');
    }
    let bracket = seq!['['] + context + seq![']'] + (seq![' '] + rest);
    let after_hash = number + (seq![' '] + bracket);
    assert(line[0] == '#');
    assert(text::trim_start(line) == line);
    assert(line.drop_first() =~= after_hash);
    texts::law_first_word_ends_at_white_space(none, number, seq![' '] + bracket);
    assert(after_hash.take(number.len() as int) =~= number);
    assert(after_hash.skip(number.len() as int) =~= seq![' '] + bracket);
    texts::lemma_trim_start(seq![' '], bracket);
    assert(bracket.drop_first() =~= context + seq![']'] + (seq![' '] + rest));
    assert(!context.contains(']')) by {
        if context.contains(']') {
            let i = choose|i: int| 0 <= i < context.len() && context[i] == ']';
            if i < service.len() {
                assert(service[i] == ']');
            } else if i > service.len() {
                assert(internal[i - service.len() - 1] == ']');
            }
        }
    }
    texts::law_split_at_the_first_mark(context, seq![' '] + rest, ']');
    assert(context[0] == service[0]);
    assert(context.last() == 'l');
    texts::law_trimming_keeps_the_text(none, context, none);
    texts::law_words_stand_between_white_space(none, service, seq![' '] + internal);
    texts::law_words_stand_between_white_space(seq![' '], internal, none);
    texts::law_words_stand_between_white_space(none, internal, none);
    assert(none + service + (seq![' '] + internal) =~= context);
    assert(seq![' '] + internal + none =~= seq![' '] + internal);
    let parts = split::words(context);
    assert(parts =~= seq![service, internal]);
    assert(text::eq_ignore_case(internal, internal));
    assert(source::context_source(context) == Some(service));
    texts::law_joining_separates(Seq::empty(), internal, " "@);
    assert(parts.drop_first() =~= seq![internal]);
    texts::lemma_trim_start(seq![' '], rest);
    assert(text::all_digits(number));

    let bare = seq!['#'] + number + (seq![' '] + rest);
    assert(bare[0] == '#');
    assert(text::trim_start(bare) == bare);
    assert(bare.drop_first() =~= number + (seq![' '] + rest));
    texts::law_first_word_ends_at_white_space(none, number, seq![' '] + rest);
    let tail = number + (seq![' '] + rest);
    assert(tail.take(number.len() as int) =~= number);
    assert(tail.skip(number.len() as int) =~= seq![' '] + rest);
}

/// A builder's own steps are of no service: a context that begins with `internal` or
/// `auth` names none, nor does one of a single word, nor one without a count.
pub proof fn law_own_steps_are_of_no_service(first: Seq<char>, second: Seq<char>)
    requires
        is_word(first),
        is_word(second),
    ensures
        text::eq_ignore_case(first, "internal"@) || text::eq_ignore_case(first, "auth"@)
            ==> source::context_source(first + seq![' '] + second) is None,
        source::context_source(first) is None,
        !text::eq_ignore_case(second, "internal"@) ==> source::context_source(
            first + seq![' '] + second,
        ) is None,
{
    let none = Seq::<char>::empty();
    texts::law_words_stand_between_white_space(none, first, seq![' '] + second);
    texts::law_words_stand_between_white_space(seq![' '], second, none);
    texts::law_words_stand_between_white_space(none, first, none);
    assert(none + first + (seq![' '] + second) =~= first + seq![' '] + second);
    assert(seq![' '] + second + none =~= seq![' '] + second);
    assert(none + first + none =~= first);
    assert(split::words(none) =~= Seq::<Seq<char>>::empty());
    assert(split::words(first + seq![' '] + second) =~= seq![first, second]);
    assert(split::words(first) =~= seq![first]);
}

/// A field that is there but blank names no source: the next one is asked.
pub proof fn law_blank_fields_are_passed_over(
    event: EventView,
    first: Seq<char>,
    second: Seq<char>,
)
    requires
        event.source == "unknown"@,
        model::property_value(event.properties, first) is Some,
        text::trim(model::property_value(event.properties, first)->0.display()).len() == 0,
        model::property_value(event.properties, second) is Some,
        text::trim(model::property_value(event.properties, second)->0.display()).len() > 0,
    ensures
        interpret::promoted(event, seq![first, second]).source == text::trim(
            model::property_value(event.properties, second)->0.display(),
        ),
        interpret::promoted(event, seq![first]) == event,
        interpret::promoted(event, Seq::empty()) == event,
{
    reveal_with_fuel(interpret::named_source, 3);
}

/// The event of a line `source | message` is that of the message, from the source.
pub proof fn law_line_gives_its_event(
    sequence: u64,
    pad: Seq<char>,
    name: Seq<char>,
    gap: Seq<char>,
    message: Seq<char>,
)
    requires
        is_blank(pad),
        is_tight(name),
        !name.contains('|'),
        name[0] != '[',
        is_blank(gap),
        message.len() == 0 || !text::is_space(message[0]),
        clean::free_of_controls(pad + name + gap + seq!['|'] + (gap + message)),
    ensures
        ({
            let line = pad + name + gap + seq!['|'] + (gap + message);
            event::line_event(sequence, line) == event::event_of(sequence, line, name, message)
        }),
{
    law_name_before_bar_is_the_source(pad, name, gap, message);
}

} // verus!
