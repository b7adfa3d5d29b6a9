//! What the words of a message are read for.
use crate::model::laws::{in_quotes, is_digits, is_unmarked, is_word_of};
use crate::model::{self, clean, event, json, laws, property, structured};
use crate::model::{HeaderView, Level, PropertyView, StructuredMessageView, ValueView};
use crate::text;
use crate::text::laws as texts;
use crate::text::laws::{is_blank, is_tight, is_word};
use vstd::prelude::*;

verus! {

// ---------------------------------------------------------------------------
// Terminal escapes
// ---------------------------------------------------------------------------

/// Whether a text can be the parameters of a control sequence.
pub open spec fn is_parameters(s: Seq<char>) -> bool {
    forall|i: int| 0 <= i < s.len() ==> '0' <= #[trigger] s[i] <= '9' || s[i] == ';'
}

/// A colour that a terminal is told is no part of the text, and neither is a
/// title; what stands before and after them is.
pub proof fn law_colours_are_taken_out(
    head: Seq<char>,
    parameters: Seq<char>,
    last: char,
    title: Seq<char>,
    tail: Seq<char>,
)
    requires
        clean::free_of_controls(head),
        is_parameters(parameters),
        '@' <= last <= '~',
        clean::free_of_controls(title),
        clean::free_of_controls(tail),
    ensures
        clean::clean(head + (seq!['\u{1b}', '['] + parameters + seq![last] + tail)) == head + tail,
        clean::clean(head + (seq!['\u{1b}', ']'] + title + seq!['\u{7}'] + tail)) == head + tail,
        clean::clean(head + (seq!['\u{1b}', ']'] + title + seq!['\u{1b}', '\\'] + tail)) == head
            + tail,
        clean::clean(head + seq!['\t'] + tail) == head + seq![' '] + tail,
{
    lemma_shown(head, tail);
    let colour = seq!['\u{1b}', '['] + parameters + seq![last] + tail;
    lemma_before_escape(head, colour);
    assert(colour.drop_first().drop_first() =~= parameters + (seq![last] + tail));
    lemma_control_sequence(parameters, seq![last] + tail);
    assert((seq![last] + tail).drop_first() =~= tail);
    assert(clean::after_control_sequence(seq![last] + tail) == tail);
    assert(clean::after_escape(colour.drop_first()) == tail);
    assert(clean::without_escapes(colour) == clean::without_escapes(tail));
    lemma_before_escape(tail, Seq::empty());
    assert(tail + Seq::<char>::empty() =~= tail);
    lemma_before_escape(head, tail);
    assert(clean::without_escapes(head + tail) == head + tail);

    let bell = seq!['\u{1b}', ']'] + title + seq!['\u{7}'] + tail;
    lemma_before_escape(head, bell);
    assert(bell.drop_first().drop_first() =~= title + (seq!['\u{7}'] + tail));
    lemma_command(title, seq!['\u{7}'] + tail);
    assert((seq!['\u{7}'] + tail).drop_first() =~= tail);
    assert(clean::after_escape(bell.drop_first()) == tail);

    let closed = seq!['\u{1b}', ']'] + title + seq!['\u{1b}', '\\'] + tail;
    lemma_before_escape(head, closed);
    assert(closed.drop_first().drop_first() =~= title + (seq!['\u{1b}', '\\'] + tail));
    lemma_command(title, seq!['\u{1b}', '\\'] + tail);
    assert((seq!['\u{1b}', '\\'] + tail).skip(2) =~= tail);
    assert(clean::after_escape(closed.drop_first()) == tail);

    let tabbed = seq!['\t'] + tail;
    lemma_before_escape(head, tabbed);
    assert(tabbed.drop_first() =~= tail);
    assert(head + tabbed =~= head + seq!['\t'] + tail);
    assert(clean::without_escapes(tabbed) == tabbed);
    lemma_controls(head + seq!['\t'], tail);
    lemma_controls(Seq::empty(), head);
    assert(Seq::<char>::empty() + head =~= head);
    assert((head + seq!['\t']).drop_last() =~= head);
    assert(clean::without_controls(Seq::<char>::empty()) + head =~= head);
    assert(clean::without_controls(head + seq!['\t']) =~= head + seq![' ']);
}

proof fn lemma_shown(head: Seq<char>, tail: Seq<char>)
    requires
        clean::free_of_controls(head),
        clean::free_of_controls(tail),
    ensures
        clean::clean(head + tail) == head + tail,
        clean::without_controls(head + tail) == head + tail,
{
    lemma_controls(head, tail);
    lemma_controls(Seq::empty(), head);
    assert(Seq::<char>::empty() + head =~= head);
    assert(clean::without_controls(Seq::<char>::empty()) + head =~= head);
    lemma_before_escape(head, tail);
    lemma_before_escape(tail, Seq::empty());
    assert(tail + Seq::<char>::empty() =~= tail);
}

proof fn lemma_before_escape(head: Seq<char>, rest: Seq<char>)
    requires
        clean::free_of_controls(head),
    ensures
        clean::without_escapes(head + rest) == head + clean::without_escapes(rest),
    decreases head.len(),
{
    if head.len() > 0 {
        let tail = head.drop_first();
        assert(!text::is_control(head[0]));
        assert forall|i: int| 0 <= i < tail.len() implies !text::is_control(#[trigger] tail[i]) by {
            assert(tail[i] == head[i + 1]);
        }
        lemma_before_escape(tail, rest);
        assert((head + rest).drop_first() =~= tail + rest);
        assert((head + rest)[0] == head[0]);
        assert(seq![head[0]] + (tail + clean::without_escapes(rest)) =~= head
            + clean::without_escapes(rest));
    } else {
        assert(head + rest =~= rest);
        assert(head + clean::without_escapes(rest) =~= clean::without_escapes(rest));
    }
}

proof fn lemma_controls(head: Seq<char>, tail: Seq<char>)
    requires
        clean::free_of_controls(tail),
    ensures
        clean::without_controls(head + tail) == clean::without_controls(head) + tail,
    decreases tail.len(),
{
    if tail.len() > 0 {
        let front = tail.drop_last();
        assert(!text::is_control(tail[tail.len() - 1]));
        lemma_controls(head, front);
        assert((head + tail).drop_last() =~= head + front);
        assert((clean::without_controls(head) + front).push(tail.last())
            =~= clean::without_controls(head) + tail);
    } else {
        assert(head + tail =~= head);
        assert(clean::without_controls(head) + tail =~= clean::without_controls(head));
    }
}

proof fn lemma_control_sequence(parameters: Seq<char>, rest: Seq<char>)
    requires
        is_parameters(parameters),
    ensures
        clean::after_control_sequence(parameters + rest) == clean::after_control_sequence(rest),
    decreases parameters.len(),
{
    if parameters.len() > 0 {
        let tail = parameters.drop_first();
        assert('0' <= parameters[0] <= '9' || parameters[0] == ';');
        assert forall|i: int| 0 <= i < tail.len() implies '0' <= #[trigger] tail[i] <= '9'
            || tail[i] == ';' by {
            assert(tail[i] == parameters[i + 1]);
        }
        lemma_control_sequence(tail, rest);
        assert((parameters + rest).drop_first() =~= tail + rest);
        assert((parameters + rest)[0] == parameters[0]);
    } else {
        assert(parameters + rest =~= rest);
    }
}

proof fn lemma_command(title: Seq<char>, rest: Seq<char>)
    requires
        clean::free_of_controls(title),
    ensures
        clean::after_command(title + rest) == clean::after_command(rest),
    decreases title.len(),
{
    if title.len() > 0 {
        let tail = title.drop_first();
        assert(!text::is_control(title[0]));
        assert forall|i: int| 0 <= i < tail.len() implies !text::is_control(#[trigger] tail[i]) by {
            assert(tail[i] == title[i + 1]);
        }
        lemma_command(tail, rest);
        assert((title + rest).drop_first() =~= tail + rest);
        assert((title + rest)[0] == title[0]);
    } else {
        assert(title + rest =~= rest);
    }
}

// ---------------------------------------------------------------------------
// Properties in messages
// ---------------------------------------------------------------------------

/// Whether a text can name a property in a message.
pub open spec fn is_name(s: Seq<char>) -> bool {
    s.len() > 0 && forall|i: int|
        0 <= i < s.len() ==> 'a' <= #[trigger] s[i] <= 'z' || 'A' <= s[i] <= 'Z' || '0' <= s[i]
            <= '9' || s[i] == '_' || s[i] == '-' || s[i] == '.'
}

/// A word `key=value` of a message is a property, and what follows it is read on.
pub proof fn law_word_with_equals_is_a_property(
    gap: Seq<char>,
    key: Seq<char>,
    value: Seq<char>,
    rest: Seq<char>,
)
    requires
        is_blank(gap),
        is_name(key),
        is_word(value),
        value[0] != '"' && value[0] != '\'',
        rest.len() == 0 || text::is_space(rest[0]),
    ensures
        property::inline_properties(gap + (key + seq!['='] + (value + rest))) == seq![
            PropertyView { key, value: property::value_of(value) },
        ] + property::inline_properties(rest),
{
    let v = value + rest;
    texts::law_first_word_ends_at_white_space(Seq::empty(), value, rest);
    assert(v[0] == value[0]);
    assert(property::value_len(v) == value.len());
    lemma_inline_property(gap, key, v);
    assert(v.take(value.len() as int) =~= value);
    assert(v.skip(value.len() as int) =~= rest);
}

/// A quoted value of a property in a message is the text between its quotation
/// marks, with the white space in it.
pub proof fn law_quoted_word_is_a_property(
    gap: Seq<char>,
    key: Seq<char>,
    t: Seq<char>,
    quote: char,
    rest: Seq<char>,
)
    requires
        is_blank(gap),
        is_name(key),
        quote == '"' || quote == '\'',
        is_unmarked(t, quote),
    ensures
        property::inline_properties(gap + (key + seq!['='] + (in_quotes(t, quote) + rest)))
            == seq![PropertyView { key, value: ValueView::String(t) }]
            + property::inline_properties(rest),
{
    let value = in_quotes(t, quote);
    let v = value + rest;
    assert(v[0] == quote);
    assert(v.drop_first() =~= t + (seq![quote] + rest));
    lemma_close_index(t, quote, rest);
    assert(property::value_len(v) == value.len());
    lemma_inline_property(gap, key, v);
    assert(v.take(value.len() as int) =~= value);
    assert(v.skip(value.len() as int) =~= rest);
    laws::law_quoted_value_is_its_text(t, quote);
}

/// A word of a message without `=` is no property.
pub proof fn law_other_words_are_no_properties(gap: Seq<char>, word: Seq<char>, rest: Seq<char>)
    requires
        is_blank(gap),
        is_word(word),
        !word.contains('='),
        rest.len() == 0 || text::is_space(rest[0]),
    ensures
        property::inline_properties(gap + (word + rest)) == property::inline_properties(rest),
        property::inline_properties(gap).len() == 0,
{
    let s = gap + (word + rest);
    let t = word + rest;
    assert(t[0] == word[0]);
    texts::lemma_trim_start(gap, t);
    texts::lemma_trim_start(gap, Seq::empty());
    assert(gap + Seq::<char>::empty() =~= gap);
    texts::law_first_word_ends_at_white_space(Seq::empty(), word, rest);
    lemma_name_len(t);
    let n = property::name_len(t);
    if n < word.len() {
        assert(t[n] == word[n]);
    } else if n < t.len() {
        if n > word.len() {
            assert(text::is_name_char(t[word.len() as int]));
        }
        assert(t[n] == rest[n - word.len()]);
    }
    assert(t.skip(word.len() as int) =~= rest);
}

proof fn lemma_name_len(s: Seq<char>)
    ensures
        0 <= property::name_len(s) <= s.len(),
        forall|i: int| 0 <= i < property::name_len(s) ==> text::is_name_char(#[trigger] s[i]),
        property::name_len(s) < s.len() ==> !text::is_name_char(s[property::name_len(s)]),
    decreases s.len(),
{
    if s.len() > 0 && text::is_name_char(s[0]) {
        let rest = s.drop_first();
        lemma_name_len(rest);
        assert forall|i: int| 0 <= i < property::name_len(s) implies text::is_name_char(
            #[trigger] s[i],
        ) by {
            if i > 0 {
                assert(s[i] == rest[i - 1]);
            }
        }
    }
}

proof fn lemma_inline_property(gap: Seq<char>, key: Seq<char>, v: Seq<char>)
    requires
        is_blank(gap),
        is_name(key),
        property::value_len(v) > 0,
    ensures
        ({
            let value = v.take(property::value_len(v));
            property::inline_properties(gap + (key + seq!['='] + v)) == seq![
                PropertyView { key, value: property::value_of(value) },
            ] + property::inline_properties(v.skip(property::value_len(v)))
        }),
{
    let t = key + seq!['='] + v;
    let s = gap + t;
    assert(t[0] == key[0]);
    texts::lemma_trim_start(gap, t);
    lemma_name_len(t);
    let n = property::name_len(t);
    if n < key.len() {
        assert(t[n] == key[n]);
    }
    if n > key.len() {
        assert(t[key.len() as int] == '=');
        assert(text::is_name_char(t[key.len() as int]));
    }
    property::lemma_inline_lengths(v);
    assert(t.take(n) =~= key);
    assert(t.skip(n + 1) =~= v);
}

proof fn lemma_close_index(t: Seq<char>, quote: char, rest: Seq<char>)
    requires
        quote != '\\',
        is_unmarked(t, quote),
    ensures
        property::close_index(t + (seq![quote] + rest), quote, false) == t.len() + 1,
    decreases t.len(),
{
    let s = t + (seq![quote] + rest);
    if t.len() > 0 {
        let tail = t.drop_first();
        assert forall|i: int| 0 <= i < tail.len() implies #[trigger] tail[i] != quote && tail[i]
            != '\\' by {
            assert(tail[i] == t[i + 1]);
        }
        lemma_close_index(tail, quote, rest);
        assert(s.drop_first() =~= tail + (seq![quote] + rest));
        assert(s[0] == t[0]);
    } else {
        assert(s[0] == quote);
    }
}

// ---------------------------------------------------------------------------
// Times and levels
// ---------------------------------------------------------------------------

/// A time of day: hours and minutes, and what else is written of it.
pub open spec fn clock(hours: Seq<char>, minutes: Seq<char>, rest: Seq<char>) -> Seq<char> {
    hours + seq![':'] + minutes + rest
}

/// Whether a text can end a time: digits, dots and colons.
pub open spec fn is_clock_rest(s: Seq<char>) -> bool {
    forall|i: int| 0 <= i < s.len() ==> '0' <= #[trigger] s[i] <= '9' || s[i] == ':' || s[i] == '.'
}

/// A time of day is a timestamp; a text with anything but digits, dots and
/// colons is not, nor one without a colon, nor a shorter one.
pub proof fn law_times_are_timestamps(hours: Seq<char>, minutes: Seq<char>, rest: Seq<char>)
    requires
        is_digits(hours),
        is_digits(minutes),
        hours.len() + minutes.len() >= 4,
        is_clock_rest(rest),
    ensures
        structured::is_timestamp(clock(hours, minutes, rest)),
        is_word(clock(hours, minutes, rest)),
{
    let s = clock(hours, minutes, rest);
    assert forall|i: int| 0 <= i < s.len() implies #[trigger] s[i] == ':' || s[i] == '.'
        || text::is_digit(s[i]) by {
        let at = hours.len() + 1 + minutes.len();
        if i < hours.len() {
            assert('0' <= hours[i] <= '9');
        } else if i > hours.len() && i < at {
            assert('0' <= minutes[i - hours.len() - 1] <= '9');
        } else if i >= at {
            assert(s[i] == rest[i - at]);
        }
    }
    assert(s[hours.len() as int] == ':');
    assert(s.contains(':'));
    assert('0' <= hours[0] <= '9');
    assert(text::is_digit(s[0]));
}

/// What is no time is no timestamp.
pub proof fn law_other_words_are_no_timestamps(s: Seq<char>, i: int)
    requires
        s.len() < 5 || !s.contains(':') || (0 <= i < s.len() && s[i] != ':' && s[i] != '.' && !('0'
            <= s[i] <= '9')),
    ensures
        !structured::is_timestamp(s),
{
}

/// A date is four, two and two digits between hyphens, and nothing else is.
pub proof fn law_dates_are_dates(year: Seq<char>, month: Seq<char>, day: Seq<char>, s: Seq<char>)
    requires
        is_digits(year) && year.len() == 4,
        is_digits(month) && month.len() == 2,
        is_digits(day) && day.len() == 2,
    ensures
        structured::is_date(year + seq!['-'] + (month + seq!['-'] + day)),
        !s.contains('-') ==> !structured::is_date(s),
{
    assert(!year.contains('-') && !month.contains('-') && !day.contains('-'));
    texts::law_fields_stand_between_marks(year, month + seq!['-'] + day, '-');
    texts::law_fields_stand_between_marks(month, day, '-');
    texts::law_fields_stand_between_marks(day, Seq::empty(), '-');
    let date = year + seq!['-'] + (month + seq!['-'] + day);
    assert(text::split::fields(date, '-') =~= seq![year, month, day]);
    if !s.contains('-') {
        texts::law_fields_stand_between_marks(s, Seq::empty(), '-');
    }
}

/// Some colons.
pub open spec fn is_colons(s: Seq<char>) -> bool {
    forall|i: int| 0 <= i < s.len() ==> #[trigger] s[i] == ':'
}

proof fn lemma_level_token(word: Seq<char>, colons: Seq<char>, level: Level)
    requires
        is_word_of(word, level),
        is_colons(colons),
    ensures
        structured::token_level(word + colons) == Some(level),
        is_word(word + colons),
        is_tight(word + colons),
        !structured::is_timestamp(word + colons),
        !structured::is_date(word + colons),
    decreases colons.len(),
{
    laws::lemma_letters(word, level);
    laws::law_level_words(Seq::empty(), word, Seq::empty(), level);
    let s = word + colons;
    lemma_trim_colons(word, colons);
    assert(text::is_ascii_alnum(word[0]));
    laws::lemma_first_letter(word, level);
    assert(s[0] == word[0]);
    assert forall|i: int| 0 <= i < s.len() implies !text::is_space(#[trigger] s[i]) && s[i]
        != '-' by {
        if i < word.len() {
            assert(text::is_ascii_alnum(word[i]));
            assert(s[i] == word[i]);
        } else {
            assert(s[i] == colons[i - word.len()]);
        }
    }
    assert(!s.contains('-'));
    texts::law_fields_stand_between_marks(s, Seq::empty(), '-');
}

pub proof fn lemma_trim_colons(word: Seq<char>, colons: Seq<char>)
    requires
        is_colons(colons),
        word.len() > 0,
        word.last() != ':',
    ensures
        text::trim_end_char(word + colons, ':') == word,
    decreases colons.len(),
{
    if colons.len() > 0 {
        assert((word + colons).last() == colons[colons.len() - 1]);
        assert((word + colons).drop_last() =~= word + colons.drop_last());
        lemma_trim_colons(word, colons.drop_last());
    } else {
        assert(word + colons =~= word);
    }
}

/// A message that begins with a level word has that level, and what follows the
/// word is its message.
pub proof fn law_leading_level_is_the_level(
    word: Seq<char>,
    colons: Seq<char>,
    gap: Seq<char>,
    message: Seq<char>,
    level: Level,
)
    requires
        is_word_of(word, level),
        is_colons(colons),
        is_blank(gap) && gap.len() > 0,
        is_tight(message),
    ensures
        structured::structured_clean(word + colons + gap + message) == Some(
            StructuredMessageView { timestamp: None, level, message },
        ),
{
    let token = word + colons;
    lemma_level_token(word, colons, level);
    let s = token + gap + message;
    assert(s[0] == token[0] && s.last() == message.last());
    texts::law_trimming_keeps_the_text(Seq::empty(), s, Seq::empty());
    assert((gap + message)[0] == gap[0]);
    texts::law_first_word_ends_at_white_space(Seq::empty(), token, gap + message);
    assert(Seq::<char>::empty() + token + (gap + message) =~= s);
    texts::lemma_trim_start(gap, message);
}

/// A message that begins with a time and a level word has that time and that
/// level, and what follows them is its message.
pub proof fn law_leading_time_is_the_timestamp(
    time: Seq<char>,
    word: Seq<char>,
    colons: Seq<char>,
    gap: Seq<char>,
    message: Seq<char>,
    level: Level,
)
    requires
        structured::is_timestamp(time),
        is_word_of(word, level),
        is_colons(colons),
        is_blank(gap) && gap.len() > 0,
        is_tight(message),
    ensures
        structured::structured_clean(time + gap + (word + colons + gap + message)) == Some(
            StructuredMessageView { timestamp: Some(time), level, message },
        ),
{
    let rest = word + colons + gap + message;
    lemma_leveled(time, word, colons, gap, message, level);
    lemma_time_word(time);
    let s = time + gap + rest;
    assert(s[0] == time[0] && s.last() == message.last());
    texts::law_trimming_keeps_the_text(Seq::empty(), s, Seq::empty());
    assert((gap + rest)[0] == gap[0]);
    texts::law_first_word_ends_at_white_space(Seq::empty(), time, gap + rest);
    assert(Seq::<char>::empty() + time + (gap + rest) =~= s);
    texts::law_fields_stand_between_marks(time, Seq::empty(), '-');
}

/// A message that begins with a date, a time and a level word has the date and
/// the time as its timestamp.
pub proof fn law_leading_date_is_part_of_the_timestamp(
    date: Seq<char>,
    time: Seq<char>,
    word: Seq<char>,
    colons: Seq<char>,
    gap: Seq<char>,
    message: Seq<char>,
    level: Level,
)
    requires
        structured::is_date(date),
        is_word(date),
        structured::is_timestamp(time),
        is_word_of(word, level),
        is_colons(colons),
        is_blank(gap) && gap.len() > 0,
        is_tight(message),
    ensures
        structured::structured_clean(date + gap + (time + gap + (word + colons + gap + message)))
            == Some(
            StructuredMessageView { timestamp: Some(date + seq![' '] + time), level, message },
        ),
{
    reveal_strlit(" ");
    assert(" "@ =~= seq![' ']);
    let after = word + colons + gap + message;
    let rest = time + gap + after;
    lemma_leveled(date + " "@ + time, word, colons, gap, message, level);
    lemma_time_word(time);
    let s = date + gap + rest;
    assert(s[0] == date[0] && s.last() == message.last());
    texts::law_trimming_keeps_the_text(Seq::empty(), s, Seq::empty());
    assert((gap + rest)[0] == gap[0]);
    texts::law_first_word_ends_at_white_space(Seq::empty(), date, gap + rest);
    assert(Seq::<char>::empty() + date + (gap + rest) =~= s);
    assert(rest[0] == time[0]);
    texts::lemma_trim_start(gap, rest);
    assert((gap + after)[0] == gap[0]);
    texts::law_first_word_ends_at_white_space(Seq::empty(), time, gap + after);
    assert(Seq::<char>::empty() + time + (gap + after) =~= rest);
}

pub proof fn lemma_time_word(time: Seq<char>)
    requires
        structured::is_timestamp(time),
    ensures
        is_word(time),
        is_tight(time),
        !time.contains('-'),
{
    assert forall|i: int| 0 <= i < time.len() implies !text::is_space(#[trigger] time[i]) && time[i]
        != '-' by {
        assert(time[i] == ':' || time[i] == '.' || text::is_digit(time[i]));
    }
}

proof fn lemma_leveled(
    time: Seq<char>,
    word: Seq<char>,
    colons: Seq<char>,
    gap: Seq<char>,
    message: Seq<char>,
    level: Level,
)
    requires
        is_word_of(word, level),
        is_colons(colons),
        is_blank(gap) && gap.len() > 0,
        is_tight(message),
    ensures
        structured::leveled(gap + (word + colons + gap + message), time) == Some(
            StructuredMessageView { timestamp: Some(time), level, message },
        ),
{
    let token = word + colons;
    lemma_level_token(word, colons, level);
    let rest = token + gap + message;
    assert(rest[0] == token[0]);
    texts::lemma_trim_start(gap, rest);
    assert((gap + message)[0] == gap[0]);
    texts::law_first_word_ends_at_white_space(Seq::empty(), token, gap + message);
    assert(Seq::<char>::empty() + token + (gap + message) =~= rest);
    texts::lemma_trim_start(gap, message);
}

/// A header is a time in brackets, a level and a colon, with or without a number
/// in parentheses; it has that time and that level.
pub proof fn law_header_has_its_time_and_level(
    time: Seq<char>,
    word: Seq<char>,
    marker: Seq<char>,
    from: Option<Seq<char>>,
    level: Level,
)
    requires
        structured::is_timestamp(time),
        is_word_of(word, level),
        !marker.contains(')'),
    ensures
        structured::header_in(
            seq!['['] + time + seq![']', ' '] + word + seq![' ', '(', '#'] + marker + seq![')', ':'],
            from,
        ) == Some(HeaderView { timestamp: time, level, source: from }),
        structured::header_in(
            seq!['['] + time + seq![']', ' '] + word + seq![' ', ':'],
            from,
        ) == Some(HeaderView { timestamp: time, level, source: from }),
        structured::header_in(
            seq!['['] + time + seq![']', ' '] + word + seq![' ', '(', '#'] + marker + seq![')'],
            from,
        ) is None,
{
    reveal_strlit("(#");
    assert("(#"@ =~= seq!['(', '#']);
    let with_marker = seq!['(', '#'] + marker + seq![')', ':'];
    let without_colon = seq!['(', '#'] + marker + seq![')'];
    lemma_header(time, word, with_marker, from, level);
    lemma_header(time, word, without_colon, from, level);
    lemma_header(time, word, seq![':'], from, level);
    let open = seq!['['] + time + seq![']', ' '] + word;
    assert(open + seq![' '] + with_marker =~= open + seq![' ', '(', '#'] + marker + seq![
        ')',
        ':',
    ]);
    assert(open + seq![' '] + without_colon =~= open + seq![' ', '(', '#'] + marker + seq![')']);
    assert(open + seq![' '] + seq![':'] =~= open + seq![' ', ':']);
    texts::law_beginnings_are_taken_off(seq!['(', '#'], marker + seq![')', ':'], seq![':']);
    texts::law_beginnings_are_taken_off(seq!['(', '#'], marker + seq![')'], seq![':']);
    assert(seq!['(', '#'] + (marker + seq![')', ':']) =~= with_marker);
    assert(seq!['(', '#'] + (marker + seq![')']) =~= without_colon);
    texts::law_split_at_the_first_mark(marker, seq![':'], ')');
    texts::law_split_at_the_first_mark(marker, Seq::empty(), ')');
    assert(marker + seq![')'] + seq![':'] =~= marker + seq![')', ':']);
    assert(marker + seq![')'] + Seq::<char>::empty() =~= marker + seq![')']);
    assert(text::trim_start(seq![':']) == seq![':']);
    assert(text::trim_start(Seq::<char>::empty()).len() == 0);
    assert(!text::starts_with(seq![':'], "(#"@));
}

proof fn lemma_header(
    time: Seq<char>,
    word: Seq<char>,
    end: Seq<char>,
    from: Option<Seq<char>>,
    level: Level,
)
    requires
        structured::is_timestamp(time),
        is_word_of(word, level),
        is_tight(end),
    ensures
        structured::header_in(
            seq!['['] + time + seq![']', ' '] + word + seq![' '] + end,
            from,
        ) == match structured::after_marker(end) {
            Some(rest) => if text::strip_first(rest, ':') is Some {
                Some(HeaderView { timestamp: time, level, source: from })
            } else {
                None
            },
            None => None,
        },
{
    let s = seq!['['] + time + seq![']', ' '] + word + seq![' '] + end;
    assert(s[0] == '[' && s.last() == end.last());
    texts::law_trimming_keeps_the_text(Seq::empty(), s, Seq::empty());
    let after = seq![' '] + word + (seq![' '] + end);
    assert(s.drop_first() =~= time + seq![']'] + after);
    assert(!time.contains(']')) by {
        if time.contains(']') {
            let i = choose|i: int| 0 <= i < time.len() && time[i] == ']';
            assert(time[i] == ':' || time[i] == '.' || text::is_digit(time[i]));
        }
    }
    texts::law_split_at_the_first_mark(time, after, ']');
    laws::lemma_letters(word, level);
    laws::law_level_words(Seq::empty(), word, Seq::empty(), level);
    assert forall|i: int| 0 <= i < word.len() implies !text::is_space(#[trigger] word[i]) by {
        assert(text::is_ascii_alnum(word[i]));
    }
    texts::lemma_trim_start(seq![' '], word + (seq![' '] + end));
    assert(seq![' '] + (word + (seq![' '] + end)) =~= after);
    assert((word + (seq![' '] + end))[0] == word[0]);
    texts::law_first_word_ends_at_white_space(Seq::empty(), word, seq![' '] + end);
    assert(Seq::<char>::empty() + word + (seq![' '] + end) =~= word + (seq![' '] + end));
    texts::lemma_trim_start(seq![' '], end);
}

// ---------------------------------------------------------------------------
// Events
// ---------------------------------------------------------------------------

/// Whether a text is a JSON object.
pub open spec fn is_object(s: Seq<char>) -> bool {
    json::json_document(s) is Some && json::json_document(s)->0 is Object
}

/// A plain line is an event with the level and the time that it begins with, or
/// with the level of its words, with its message, and with the properties that
/// stand in the message.
pub proof fn law_plain_message_is_an_event(
    sequence: u64,
    raw: Seq<char>,
    from: Seq<char>,
    message: Seq<char>,
)
    requires
        !is_object(text::trim(message)),
        clean::free_of_controls(message),
        !message.contains('{'),
    ensures
        ({
            let made = event::event_of(sequence, raw, from, message);
            &&& made.sequence == sequence
            &&& made.raw == raw
            &&& made.source == from
            &&& match structured::structured_clean(message) {
                Some(read) => {
                    &&& made.level == read.level
                    &&& made.timestamp == read.timestamp
                    &&& made.message == read.message
                },
                None => {
                    &&& made.level == structured::inferred(message)
                    &&& made.timestamp is None
                    &&& made.message == message
                },
            }
            &&& made.properties == json::message_properties(made.message)
        }),
{
    clean::lemma_clean_keeps(message);
    let body = match structured::structured(message) {
        Some(read) => read.message,
        None => message,
    };
    assert(!body.contains('{')) by {
        lemma_body_is_part(message);
    }
    lemma_no_trailing(body, 0);
    assert(json::message_properties(body) + Seq::<PropertyView>::empty()
        =~= json::message_properties(body));
}

proof fn lemma_no_trailing(s: Seq<char>, i: int)
    requires
        !s.contains('{'),
        0 <= i <= s.len(),
    ensures
        json::trailing_index(s, i) == s.len(),
    decreases s.len() - i,
{
    if i < s.len() {
        assert(s[i] != '{');
        lemma_no_trailing(s, i + 1);
    }
}

/// Whether every character of a text is one of another.
pub open spec fn is_drawn_from(s: Seq<char>, whole: Seq<char>) -> bool {
    forall|i: int| 0 <= i < s.len() ==> whole.contains(#[trigger] s[i])
}

proof fn lemma_trim_drawn(s: Seq<char>)
    ensures
        is_drawn_from(text::trim_start(s), s),
        is_drawn_from(text::trim_end(s), s),
        is_drawn_from(s, s),
    decreases s.len(),
{
    assert forall|i: int| 0 <= i < s.len() implies s.contains(#[trigger] s[i]) by {}
    if s.len() > 0 {
        lemma_trim_drawn(s.drop_first());
        lemma_trim_drawn(s.drop_last());
        if text::is_space(s[0]) {
            let t = text::trim_start(s);
            assert forall|i: int| 0 <= i < t.len() implies s.contains(#[trigger] t[i]) by {
                let rest = s.drop_first();
                assert(rest.contains(t[i]));
                let k = choose|k: int| 0 <= k < rest.len() && rest[k] == t[i];
                assert(s[k + 1] == t[i]);
            }
        }
        if text::is_space(s.last()) {
            let t = text::trim_end(s);
            assert forall|i: int| 0 <= i < t.len() implies s.contains(#[trigger] t[i]) by {
                let rest = s.drop_last();
                assert(rest.contains(t[i]));
                let k = choose|k: int| 0 <= k < rest.len() && rest[k] == t[i];
                assert(s[k] == t[i]);
            }
        }
    }
}

proof fn lemma_drawn_transitive(a: Seq<char>, b: Seq<char>, c: Seq<char>)
    requires
        is_drawn_from(a, b),
        is_drawn_from(b, c),
    ensures
        is_drawn_from(a, c),
{
    assert forall|i: int| 0 <= i < a.len() implies c.contains(#[trigger] a[i]) by {
        assert(b.contains(a[i]));
        let k = choose|k: int| 0 <= k < b.len() && b[k] == a[i];
        assert(c.contains(b[k]));
    }
}

proof fn lemma_rest_drawn(s: Seq<char>)
    ensures
        text::first_token(s) matches Some((word, rest)) ==> is_drawn_from(rest, s),
{
    lemma_trim_drawn(s);
    let t = text::trim_start(s);
    if t.len() > 0 {
        let end = text::index_of_space(t);
        text::lemma_index_of_space(t);
        let rest = t.skip(end);
        assert forall|i: int| 0 <= i < rest.len() implies t.contains(#[trigger] rest[i]) by {
            assert(t[end + i] == rest[i]);
        }
        lemma_drawn_transitive(rest, t, s);
    }
}

proof fn lemma_leveled_drawn(s: Seq<char>, time: Seq<char>)
    ensures
        structured::leveled(s, time) matches Some(read) ==> is_drawn_from(read.message, s),
{
    let t = text::trim_start(s);
    lemma_trim_drawn(s);
    lemma_rest_drawn(t);
    match text::first_token(t) {
        Some((_, rest)) => {
            lemma_trim_drawn(rest);
            lemma_drawn_transitive(rest, t, s);
            lemma_drawn_transitive(text::trim_start(rest), rest, s);
        },
        None => {},
    }
}

proof fn lemma_body_is_part(message: Seq<char>)
    requires
        !message.contains('{'),
    ensures
        structured::structured_clean(message) matches Some(read) ==> !read.message.contains('{'),
{
    let t = text::trim(message);
    lemma_trim_drawn(message);
    lemma_trim_drawn(text::trim_start(message));
    lemma_drawn_transitive(t, text::trim_start(message), message);
    lemma_rest_drawn(t);
    match text::first_token(t) {
        Some((first, rest)) => {
            lemma_drawn_transitive(rest, t, message);
            let tail = text::trim_start(rest);
            lemma_trim_drawn(rest);
            lemma_drawn_transitive(tail, rest, message);
            lemma_leveled_drawn(rest, first);
            lemma_rest_drawn(tail);
            match structured::leveled(rest, first) {
                Some(read) => {
                    lemma_drawn_transitive(read.message, rest, message);
                },
                None => {},
            }
            match text::first_token(tail) {
                Some((time, after)) => {
                    lemma_drawn_transitive(after, tail, message);
                    lemma_leveled_drawn(after, first + " "@ + time);
                    match structured::leveled(after, first + " "@ + time) {
                        Some(read) => {
                            lemma_drawn_transitive(read.message, after, message);
                        },
                        None => {},
                    }
                },
                None => {},
            }
        },
        None => {},
    }
    match structured::structured_clean(message) {
        Some(read) => {
            assert(is_drawn_from(read.message, message));
            if read.message.contains('{') {
                let k = choose|k: int| 0 <= k < read.message.len() && read.message[k] == '{';
                assert(message.contains(read.message[k]));
            }
        },
        None => {},
    }
}

/// The first property with a key is the one that counts, and one that no property
/// has the key of is not there.
pub proof fn law_first_property_counts(properties: Seq<PropertyView>, key: Seq<char>, i: int)
    ensures
        0 <= i < properties.len() && properties[i].key == key && (forall|j: int|
            0 <= j < i ==> (#[trigger] properties[j]).key != key) ==> model::property_value(
            properties,
            key,
        ) == Some(properties[i].value),
        (forall|j: int| 0 <= j < properties.len() ==> (#[trigger] properties[j]).key != key)
            == (model::property_value(properties, key) is None),
{
    model::lemma_property_index(properties, key);
    let k = model::property_index(properties, key);
    if 0 <= i < properties.len() && properties[i].key == key && (forall|j: int|
        0 <= j < i ==> (#[trigger] properties[j]).key != key) {
        if k < i {
            assert(properties[k].key != key);
        }
        assert(k == i);
    }
}

/// A value is shown as the text it is, or as the word of what it is.
pub proof fn law_values_are_shown_as_they_are(value: Seq<char>)
    ensures
        ValueView::String(value).display() == value,
        ValueView::Number(value).display() == value,
        ValueView::Text(value).display() == value,
        ValueView::Bool(true).display() == "true"@,
        ValueView::Bool(false).display() == "false"@,
        ValueView::Null.display() == "null"@,
{
}

// ---------------------------------------------------------------------------
// Looser objects
// ---------------------------------------------------------------------------

/// Whether a text has neither commas nor quotation marks nor escapes in it.
pub open spec fn is_unpunctuated(s: Seq<char>) -> bool {
    forall|i: int|
        0 <= i < s.len() ==> #[trigger] s[i] != ',' && s[i] != '"' && s[i] != '\'' && s[i] != '\\'
}

/// Entries stand between commas, and a comma between quotation marks is part of its
/// entry.
pub proof fn law_entries_stand_between_commas(
    head: Seq<char>,
    t: Seq<char>,
    quote: char,
    rest: Seq<char>,
)
    requires
        is_unpunctuated(head),
        quote == '"' || quote == '\'',
        is_unmarked(t, quote),
    ensures
        property::comma_parts(head + in_quotes(t, quote) + (seq![','] + rest)) == seq![
            head + in_quotes(t, quote),
        ] + property::comma_parts(rest),
        property::comma_parts(head + (seq![','] + rest)) == seq![head] + property::comma_parts(
            rest,
        ),
        property::comma_parts(head + in_quotes(t, quote)) == seq![head + in_quotes(t, quote)],
        property::comma_parts(head) == seq![head],
{
    let none = Seq::<char>::empty();
    let part = head + in_quotes(t, quote);
    let comma = seq![','] + rest;
    let whole = part + comma;
    lemma_quoted_part(head, t, quote, comma);
    lemma_quoted_part(head, t, quote, none);
    assert(part + none =~= part);
    assert(comma[0] == ',');
    assert(property::top_comma(comma, None, false) == 0);
    assert(property::top_comma(none, None, false) == 0);
    assert(whole.take(part.len() as int) =~= part);
    assert(whole.skip(part.len() as int + 1) =~= rest);
    lemma_plain_part(head, comma);
    lemma_plain_part(head, none);
    assert(head + none =~= head);
    assert((head + comma).take(head.len() as int) =~= head);
    assert((head + comma).skip(head.len() as int + 1) =~= rest);
}

proof fn lemma_plain_part(s: Seq<char>, rest: Seq<char>)
    requires
        is_unpunctuated(s),
    ensures
        property::top_comma(s + rest, None, false) == s.len() + property::top_comma(
            rest,
            None,
            false,
        ),
    decreases s.len(),
{
    if s.len() > 0 {
        let tail = s.drop_first();
        assert forall|i: int| 0 <= i < tail.len() implies #[trigger] tail[i] != ',' && tail[i]
            != '"' && tail[i] != '\'' && tail[i] != '\\' by {
            assert(tail[i] == s[i + 1]);
        }
        lemma_plain_part(tail, rest);
        assert((s + rest).drop_first() =~= tail + rest);
        assert((s + rest)[0] == s[0]);
    } else {
        assert(s + rest =~= rest);
    }
}

proof fn lemma_marked_part(t: Seq<char>, quote: char, rest: Seq<char>)
    requires
        is_unmarked(t, quote),
    ensures
        property::top_comma(t + rest, Some(quote), false) == t.len() + property::top_comma(
            rest,
            Some(quote),
            false,
        ),
    decreases t.len(),
{
    if t.len() > 0 {
        let tail = t.drop_first();
        assert forall|i: int| 0 <= i < tail.len() implies #[trigger] tail[i] != quote && tail[i]
            != '\\' by {
            assert(tail[i] == t[i + 1]);
        }
        lemma_marked_part(tail, quote, rest);
        assert((t + rest).drop_first() =~= tail + rest);
        assert((t + rest)[0] == t[0]);
    } else {
        assert(t + rest =~= rest);
    }
}

proof fn lemma_quoted_part(head: Seq<char>, t: Seq<char>, quote: char, rest: Seq<char>)
    requires
        is_unpunctuated(head),
        quote == '"' || quote == '\'',
        is_unmarked(t, quote),
    ensures
        property::top_comma(head + in_quotes(t, quote) + rest, None, false) == head.len() + t.len()
            + 2 + property::top_comma(rest, None, false),
{
    let end = seq![quote] + rest;
    let marked = seq![quote] + (t + end);
    lemma_plain_part(head, marked);
    assert(head + marked =~= head + in_quotes(t, quote) + rest);
    assert(marked.drop_first() =~= t + end);
    assert(marked[0] == quote);
    lemma_marked_part(t, quote, end);
    assert(end.drop_first() =~= rest);
    assert(end[0] == quote);
}

/// A message that is an object in the looser form has the properties of its
/// entries; a message that begins with no brace has those of its words.
pub proof fn law_loose_objects_have_their_entries(
    first: Seq<char>,
    second: Seq<char>,
    t: Seq<char>,
    u: Seq<char>,
    quote: char,
)
    requires
        laws::is_bare_key(first) && is_unpunctuated(first),
        laws::is_bare_key(second) && is_unpunctuated(second),
        quote == '"' || quote == '\'',
        is_unmarked(t, quote),
        is_unmarked(u, quote),
    ensures
        ({
            let one = first + seq![':'] + (seq![' '] + in_quotes(t, quote));
            let two = second + seq![':'] + (seq![' '] + in_quotes(u, quote));
            let message = seq!['{'] + (one + (seq![',', ' '] + two)) + seq!['}'];
            !is_object(message) ==> json::message_properties(message) == seq![
                PropertyView { key: first, value: ValueView::String(t) },
                PropertyView { key: second, value: ValueView::String(u) },
            ]
        }),
{
    let none = Seq::<char>::empty();
    let one = first + seq![':'] + (seq![' '] + in_quotes(t, quote));
    let two = second + seq![':'] + (seq![' '] + in_quotes(u, quote));
    let body = one + (seq![',', ' '] + two);
    let message = seq!['{'] + body + seq!['}'];
    texts::law_trimming_keeps_the_text(none, message, none);
    assert(message.drop_first() =~= body + seq!['}']);
    assert((body + seq!['}']).drop_last() =~= body);
    assert(body[0] == first[0] && body.last() == quote);
    texts::law_trimming_keeps_the_text(none, body, none);
    let head = first + seq![':', ' '];
    let spaced = seq![' '] + two;
    let tail = seq![' '] + second + seq![':', ' '];
    assert(one =~= head + in_quotes(t, quote));
    assert(spaced =~= tail + in_quotes(u, quote));
    assert(body =~= head + in_quotes(t, quote) + (seq![','] + spaced));
    assert forall|i: int| 0 <= i < head.len() implies #[trigger] head[i] != ',' && head[i] != '"'
        && head[i] != '\'' && head[i] != '\\' by {
        if i < first.len() {
            assert(head[i] == first[i]);
        }
    }
    assert forall|i: int| 0 <= i < tail.len() implies #[trigger] tail[i] != ',' && tail[i] != '"'
        && tail[i] != '\'' && tail[i] != '\\' by {
        if 1 <= i < second.len() + 1 {
            assert(tail[i] == second[i - 1]);
        }
    }
    law_entries_stand_between_commas(head, t, quote, spaced);
    law_entries_stand_between_commas(tail, u, quote, none);
    let parts = seq![one, spaced];
    assert(property::comma_parts(body) =~= parts);
    assert(one[0] == first[0] && one.last() == quote);
    assert(two[0] == second[0] && two.last() == quote);
    texts::law_trimming_keeps_the_text(none, one, none);
    texts::law_trimming_keeps_the_text(seq![' '], two, none);
    assert(seq![' '] + two + none =~= spaced);
    laws::law_quoted_entry_is_its_text(first, t, quote);
    laws::law_quoted_entry_is_its_text(second, u, quote);
    reveal_with_fuel(property::entries_of, 3);
    assert(parts.drop_last() =~= seq![one]);
    assert(seq![one].drop_last() =~= Seq::<Seq<char>>::empty());
    assert(property::entries_of(parts) =~= seq![
        PropertyView { key: first, value: ValueView::String(t) },
        PropertyView { key: second, value: ValueView::String(u) },
    ]);
}

/// A message that begins with no brace has the properties of its words.
pub proof fn law_words_give_properties(message: Seq<char>)
    requires
        is_tight(message),
        message[0] != '{',
        !is_object(message),
    ensures
        json::message_properties(message) == property::inline_properties(message),
{
    texts::law_trimming_keeps_the_text(Seq::empty(), message, Seq::empty());
}

/// A message whose first word is neither a level nor a time nor a date says nothing
/// of its level in front.
pub proof fn law_other_messages_have_nothing_in_front(word: Seq<char>, rest: Seq<char>)
    requires
        is_word(word),
        rest.len() == 0 || text::is_space(rest[0]),
        is_tight(word + rest),
        structured::token_level(word) is None,
        !structured::is_timestamp(word),
        !structured::is_date(word),
    ensures
        structured::structured_clean(word + rest) is None,
{
    let none = Seq::<char>::empty();
    texts::law_trimming_keeps_the_text(none, word + rest, none);
    texts::law_first_word_ends_at_white_space(none, word, rest);
    assert(none + word + rest =~= word + rest);
}

/// A line can stand within an object where it is brackets, an entry, a quoted text,
/// a number or a word of truth or absence.
pub proof fn law_lines_of_objects_are_told(
    key: Seq<char>,
    value: Seq<char>,
    t: Seq<char>,
    quote: char,
    digits: Seq<char>,
)
    requires
        laws::is_bare_key(key),
        is_tight(value),
        value.last() != ',',
        quote == '"' || quote == '\'',
        is_unmarked(t, quote),
        is_digits(digits),
    ensures
        property::is_body_line(seq!['{']),
        property::is_body_line(seq!['}', ',']),
        property::is_body_line(seq![']']),
        property::is_body_line(key + seq![':'] + (seq![' '] + value)),
        property::is_body_line(in_quotes(t, quote)),
        property::is_body_line(digits),
        property::is_body_line("true"@) && property::is_body_line("false"@)
            && property::is_body_line("null"@),
{
    let none = Seq::<char>::empty();
    texts::law_trimming_keeps_the_text(none, seq!['{'], none);
    texts::law_trimming_keeps_the_text(none, seq!['}', ','], none);
    texts::law_trimming_keeps_the_text(none, seq![']'], none);
    let entry = key + seq![':'] + (seq![' '] + value);
    assert(entry[0] == key[0] && entry.last() == value.last());
    texts::law_trimming_keeps_the_text(none, entry, none);
    assert(property::without_comma(entry) == entry);
    laws::law_entry_is_key_and_value(key, seq![' '], value);
    let quoted = in_quotes(t, quote);
    assert(quoted[0] == quote && quoted.last() == quote);
    texts::law_trimming_keeps_the_text(none, quoted, none);
    assert(property::without_comma(quoted) == quoted);
    lemma_close_index(t, quote, none);
    assert(quoted.drop_first() =~= t + (seq![quote] + none));
    assert(property::is_quoted_scalar(quoted));
    assert('0' <= digits[0] <= '9' && '0' <= digits[digits.len() - 1] <= '9');
    texts::law_trimming_keeps_the_text(none, digits, none);
    assert(property::without_comma(digits) == digits);
    laws::law_numbers_are_numbers(digits, digits, digits);
    assert(!digits.contains('.'));
    texts::law_split_at_the_first_mark(digits, none, '.');
    assert(text::all_digits(digits)) by {
        assert forall|i: int| 0 <= i < digits.len() implies text::is_digit(
            #[trigger] digits[i],
        ) by {
            assert('0' <= digits[i] <= '9');
        }
    }
    assert(property::is_number(digits));
    reveal_strlit("true");
    reveal_strlit("false");
    reveal_strlit("null");
    texts::law_trimming_keeps_the_text(none, "true"@, none);
    texts::law_trimming_keeps_the_text(none, "false"@, none);
    texts::law_trimming_keeps_the_text(none, "null"@, none);
    assert(property::without_comma("true"@) == "true"@);
    assert(property::without_comma("false"@) == "false"@);
    assert(property::without_comma("null"@) == "null"@);
}

} // verus!
