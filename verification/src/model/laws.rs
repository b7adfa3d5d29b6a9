//! What levels and properties are read for.
use crate::model::{self, property, structured};
use crate::model::{Level, PropertyView, ValueView};
use crate::text;
use crate::text::laws as texts;
use crate::text::laws::{is_blank, is_tight};
use vstd::prelude::*;

verus! {

// ---------------------------------------------------------------------------
// Levels
// ---------------------------------------------------------------------------

/// The words of the levels, in any case.
pub open spec fn is_word_of(word: Seq<char>, level: Level) -> bool {
    match level {
        Level::Fatal => text::eq_ignore_case(word, "fatal"@),
        Level::Error => text::eq_ignore_case(word, "error"@) || text::eq_ignore_case(word, "err"@),
        Level::Warn => text::eq_ignore_case(word, "warn"@) || text::eq_ignore_case(
            word,
            "warning"@,
        ),
        Level::Info => text::eq_ignore_case(word, "info"@) || text::eq_ignore_case(word, "log"@),
        Level::Debug => text::eq_ignore_case(word, "debug"@),
        Level::Trace => text::eq_ignore_case(word, "trace"@) || text::eq_ignore_case(
            word,
            "verbose"@,
        ),
        Level::Unknown => text::eq_ignore_case(word, "unknown"@),
    }
}

/// The words of a level name it, whatever white space is round them, and no
/// other text does.
pub proof fn law_level_words(before: Seq<char>, word: Seq<char>, after: Seq<char>, level: Level)
    requires
        is_blank(before),
        is_blank(after),
        is_tight(word),
    ensures
        (model::level_of(before + word + after) == Some(level)) == is_word_of(word, level),
        (model::level_of(word) == Some(level)) == is_word_of(word, level),
{
    texts::law_trimming_keeps_the_text(before, word, after);
    lemma_levels(word);
}

proof fn lemma_levels(word: Seq<char>)
    requires
        is_tight(word),
    ensures
        forall|level: Level| (model::level_of(word) == Some(level)) == #[trigger] is_word_of(
            word,
            level,
        ),
{
    texts::law_trimming_keeps_the_text(Seq::empty(), word, Seq::empty());
    lemma_literals();
    let c = text::lower(word[0]);
}

proof fn lemma_literals()
    ensures
        "fatal"@ == seq!['f', 'a', 't', 'a', 'l'],
        "error"@ == seq!['e', 'r', 'r', 'o', 'r'],
        "err"@ == seq!['e', 'r', 'r'],
        "warn"@ == seq!['w', 'a', 'r', 'n'],
        "warning"@ == seq!['w', 'a', 'r', 'n', 'i', 'n', 'g'],
        "info"@ == seq!['i', 'n', 'f', 'o'],
        "log"@ == seq!['l', 'o', 'g'],
        "debug"@ == seq!['d', 'e', 'b', 'u', 'g'],
        "trace"@ == seq!['t', 'r', 'a', 'c', 'e'],
        "verbose"@ == seq!['v', 'e', 'r', 'b', 'o', 's', 'e'],
        "unknown"@ == seq!['u', 'n', 'k', 'n', 'o', 'w', 'n'],
{
    reveal_strlit("fatal");
    reveal_strlit("error");
    reveal_strlit("err");
    reveal_strlit("warn");
    reveal_strlit("warning");
    reveal_strlit("info");
    reveal_strlit("log");
    reveal_strlit("debug");
    reveal_strlit("trace");
    reveal_strlit("verbose");
    reveal_strlit("unknown");
    assert("fatal"@ =~= seq!['f', 'a', 't', 'a', 'l']);
    assert("error"@ =~= seq!['e', 'r', 'r', 'o', 'r']);
    assert("err"@ =~= seq!['e', 'r', 'r']);
    assert("warn"@ =~= seq!['w', 'a', 'r', 'n']);
    assert("warning"@ =~= seq!['w', 'a', 'r', 'n', 'i', 'n', 'g']);
    assert("info"@ =~= seq!['i', 'n', 'f', 'o']);
    assert("log"@ =~= seq!['l', 'o', 'g']);
    assert("debug"@ =~= seq!['d', 'e', 'b', 'u', 'g']);
    assert("trace"@ =~= seq!['t', 'r', 'a', 'c', 'e']);
    assert("verbose"@ =~= seq!['v', 'e', 'r', 'b', 'o', 's', 'e']);
    assert("unknown"@ =~= seq!['u', 'n', 'k', 'n', 'o', 'w', 'n']);
}

/// Whether a character is a letter or a digit of ASCII.
pub open spec fn is_letter_or_digit(c: char) -> bool {
    'a' <= c <= 'z' || 'A' <= c <= 'Z' || '0' <= c <= '9'
}

/// Whether a word of a level stands at a place, with no letter or digit of ASCII
/// on either side.
pub open spec fn word_at(s: Seq<char>, i: int, j: int, level: Level) -> bool {
    &&& 0 <= i < j <= s.len()
    &&& is_word_of(s.subrange(i, j), level)
    &&& i == 0 || !is_letter_or_digit(s[i - 1])
    &&& j == s.len() || !is_letter_or_digit(s[j])
}

/// Whether a message holds a word of a level.
pub open spec fn holds_word(s: Seq<char>, level: Level) -> bool {
    exists|i: int, j: int| #[trigger] word_at(s, i, j, level)
}

/// A message is as serious as the most serious of the level words in it: a word
/// of `Fatal` outranks all others, one of `Error` all but those, then `Warn`,
/// `Info`, `Debug` and `Trace`, and without a level word the level is unknown.
pub proof fn law_most_serious_word_counts(s: Seq<char>)
    ensures
        holds_word(s, Level::Fatal) ==> structured::inferred(s) == Level::Fatal,
        !holds_word(s, Level::Fatal) && holds_word(s, Level::Error) ==> structured::inferred(s)
            == Level::Error,
        !holds_word(s, Level::Fatal) && !holds_word(s, Level::Error) && holds_word(s, Level::Warn)
            ==> structured::inferred(s) == Level::Warn,
        !holds_word(s, Level::Fatal) && !holds_word(s, Level::Error) && !holds_word(
            s,
            Level::Warn,
        ) && holds_word(s, Level::Info) ==> structured::inferred(s) == Level::Info,
        !holds_word(s, Level::Fatal) && !holds_word(s, Level::Error) && !holds_word(
            s,
            Level::Warn,
        ) && !holds_word(s, Level::Info) && holds_word(s, Level::Debug) ==> structured::inferred(s)
            == Level::Debug,
        !holds_word(s, Level::Fatal) && !holds_word(s, Level::Error) && !holds_word(
            s,
            Level::Warn,
        ) && !holds_word(s, Level::Info) && !holds_word(s, Level::Debug) && holds_word(
            s,
            Level::Trace,
        ) ==> structured::inferred(s) == Level::Trace,
        !holds_word(s, Level::Fatal) && !holds_word(s, Level::Error) && !holds_word(
            s,
            Level::Warn,
        ) && !holds_word(s, Level::Info) && !holds_word(s, Level::Debug) && !holds_word(
            s,
            Level::Trace,
        ) ==> structured::inferred(s) == Level::Unknown,
{
    lemma_mentions(s, Level::Fatal);
    lemma_mentions(s, Level::Error);
    lemma_mentions(s, Level::Warn);
    lemma_mentions(s, Level::Info);
    lemma_mentions(s, Level::Debug);
    lemma_mentions(s, Level::Trace);
    let level = if holds_word(s, Level::Fatal) {
        Level::Fatal
    } else if holds_word(s, Level::Error) {
        Level::Error
    } else if holds_word(s, Level::Warn) {
        Level::Warn
    } else if holds_word(s, Level::Info) {
        Level::Info
    } else if holds_word(s, Level::Debug) {
        Level::Debug
    } else if holds_word(s, Level::Trace) {
        Level::Trace
    } else {
        Level::Unknown
    };
    assert(structured::is_inferred(s, level));
    structured::law_inferred_level_is_unique(s, level, structured::inferred(s));
}

/// A line that names an error is at least that serious, whatever else it names.
pub proof fn law_more_serious_words_win(s: Seq<char>, first: Level, second: Level)
    requires
        holds_word(s, first),
        holds_word(s, second),
        first == Level::Fatal && second != Level::Fatal || first == Level::Error && (second
            == Level::Warn || second == Level::Info || second == Level::Debug || second
            == Level::Trace) || first == Level::Warn && (second == Level::Info || second
            == Level::Debug || second == Level::Trace) || first == Level::Info && (second
            == Level::Debug || second == Level::Trace) || first == Level::Debug && second
            == Level::Trace,
    ensures
        structured::inferred(s) != second,
{
    law_most_serious_word_counts(s);
}

pub proof fn lemma_letters(word: Seq<char>, level: Level)
    requires
        is_word_of(word, level),
    ensures
        word.len() > 0,
        forall|k: int| 0 <= k < word.len() ==> text::is_ascii_alnum(#[trigger] word[k]),
        is_tight(word),
{
    lemma_literals();
    assert(word.len() <= 7);
    assert forall|k: int| 0 <= k < word.len() implies text::is_ascii_alnum(
        #[trigger] word[k],
    ) by {
        assert(k == 0 || k == 1 || k == 2 || k == 3 || k == 4 || k == 5 || k == 6);
        texts::law_case_is_that_of_letters(word[k]);
    }
    assert(text::is_ascii_alnum(word[0]));
    assert(text::is_ascii_alnum(word[word.len() - 1]));
}

pub proof fn lemma_first_letter(word: Seq<char>, level: Level)
    requires
        is_word_of(word, level),
    ensures
        word.len() > 0,
        'a' <= word[0] <= 'z' || 'A' <= word[0] <= 'Z',
{
    lemma_literals();
    texts::law_case_is_that_of_letters(word[0]);
}

proof fn lemma_mentions(s: Seq<char>, level: Level)
    ensures
        structured::mentions(s, level) == holds_word(s, level),
{
    if structured::mentions(s, level) {
        let (i, j) = choose|i: int, j: int| #[trigger]
            structured::is_run(s, i, j) && model::level_of(s.subrange(i, j)) == Some(level);
        let word = s.subrange(i, j);
        if i == j {
            lemma_literals();
            assert(text::trim(word).len() == 0);
        }
        assert(text::is_ascii_alnum(s[i]));
        assert(text::is_ascii_alnum(s[j - 1]));
        assert(word[0] == s[i]);
        assert(word[word.len() - 1] == s[j - 1]);
        lemma_levels(word);
        assert(is_word_of(word, level));
        assert(word_at(s, i, j, level));
    }
    if holds_word(s, level) {
        let (i, j) = choose|i: int, j: int| #[trigger] word_at(s, i, j, level);
        let word = s.subrange(i, j);
        lemma_letters(word, level);
        lemma_levels(word);
        assert(is_word_of(word, level));
        assert forall|k: int| i <= k < j implies text::is_ascii_alnum(#[trigger] s[k]) by {
            assert(word[k - i] == s[k]);
        }
        assert(structured::is_run(s, i, j));
    }
}

// ---------------------------------------------------------------------------
// Values
// ---------------------------------------------------------------------------

/// Whether a text can stand between quotation marks as it is.
pub open spec fn is_unmarked(t: Seq<char>, quote: char) -> bool {
    forall|i: int| 0 <= i < t.len() ==> #[trigger] t[i] != quote && t[i] != '\\'
}

/// A text between quotation marks of one kind.
pub open spec fn in_quotes(t: Seq<char>, quote: char) -> Seq<char> {
    seq![quote] + t + seq![quote]
}

/// A value between a pair of equal quotation marks, of either kind, is the text
/// between them, whether or not a comma ends the entry.
pub proof fn law_quoted_value_is_its_text(t: Seq<char>, quote: char)
    requires
        quote == '"' || quote == '\'',
        is_unmarked(t, quote),
    ensures
        property::quoted(in_quotes(t, quote)) == Some(t),
        property::value_of(in_quotes(t, quote)) == ValueView::String(t),
        property::value_of(in_quotes(t, quote) + seq![',']) == ValueView::String(t),
{
    let s = in_quotes(t, quote);
    lemma_quoted_tail(t, quote, Seq::empty());
    assert(s.drop_first() =~= t + seq![quote] + Seq::<char>::empty());
    assert(s[0] == quote && s.last() == quote);
    texts::law_trimming_keeps_the_text(Seq::empty(), s, Seq::empty());
    let ended = s + seq![','];
    assert(ended[0] == quote && ended.last() == ',');
    texts::law_trimming_keeps_the_text(Seq::empty(), ended, Seq::empty());
    assert(ended.drop_last() =~= s);
}

/// An escaped character between quotation marks stands for itself, but for the
/// line ends and the tab that letters stand for.
pub proof fn law_escapes_are_resolved(
    head: Seq<char>,
    c: char,
    tail: Seq<char>,
    quote: char,
)
    requires
        quote == '"' || quote == '\'',
        is_unmarked(head, quote),
        is_unmarked(tail, quote),
    ensures
        property::quoted(in_quotes(head + seq!['\\', c] + tail, quote)) == Some(
            head + seq![
                if c == 'n' {
                    '\n'
                } else if c == 'r' {
                    '\r'
                } else if c == 't' {
                    '\t'
                } else {
                    c
                },
            ] + tail,
        ),
{
    let rest = seq!['\\', c] + tail + seq![quote];
    let s = in_quotes(head + seq!['\\', c] + tail, quote);
    assert(s.drop_first() =~= head + rest);
    assert(s[0] == quote);
    lemma_quoted_run(head, quote, rest);
    assert(rest.drop_first().drop_first() =~= tail + seq![quote] + Seq::<char>::empty());
    assert(rest[0] == '\\' && rest.drop_first()[0] == c);
    lemma_quoted_tail(tail, quote, Seq::empty());
    reveal_with_fuel(property::quoted_tail, 3);
    let shown = property::unescaped(c);
    assert(property::quoted_tail(rest, quote, false) == Some(seq![shown] + tail));
    assert(head + (seq![shown] + tail) =~= head + seq![shown] + tail);
}

/// A text that no quotation mark closes is no quoted string.
pub proof fn law_open_quotes_hold_nothing(t: Seq<char>, quote: char)
    requires
        is_unmarked(t, quote),
    ensures
        property::quoted(seq![quote] + t) is None,
        t.len() > 0 && t[0] != '"' && t[0] != '\'' ==> property::quoted(t) is None,
{
    let s = seq![quote] + t;
    assert(s.drop_first() =~= t);
    lemma_quoted_run(t, quote, Seq::empty());
    assert(t + Seq::<char>::empty() =~= t);
}

proof fn lemma_quoted_run(head: Seq<char>, quote: char, rest: Seq<char>)
    requires
        is_unmarked(head, quote),
    ensures
        property::quoted_tail(head + rest, quote, false) == property::prepend(
            head,
            property::quoted_tail(rest, quote, false),
        ),
    decreases head.len(),
{
    if head.len() > 0 {
        let tail = head.drop_first();
        assert forall|i: int| 0 <= i < tail.len() implies #[trigger] tail[i] != quote && tail[i]
            != '\\' by {
            assert(tail[i] == head[i + 1]);
        }
        lemma_quoted_run(tail, quote, rest);
        let s = head + rest;
        assert(s.drop_first() =~= tail + rest);
        assert(s[0] == head[0]);
        match property::quoted_tail(rest, quote, false) {
            Some(more) => {
                assert(seq![head[0]] + (tail + more) =~= head + more);
            },
            None => {},
        }
    } else {
        assert(head + rest =~= rest);
        match property::quoted_tail(rest, quote, false) {
            Some(more) => {
                assert(head + more =~= more);
            },
            None => {},
        }
    }
}

proof fn lemma_quoted_tail(t: Seq<char>, quote: char, rest: Seq<char>)
    requires
        quote != '\\',
        is_unmarked(t, quote),
    ensures
        property::quoted_tail(t + seq![quote] + rest, quote, false) == Some(t),
{
    let end = seq![quote] + rest;
    lemma_quoted_run(t, quote, end);
    assert(t + end =~= t + seq![quote] + rest);
    assert(end[0] == quote);
    assert(t + Seq::<char>::empty() =~= t);
}

/// Whether a text is digits and nothing else.
pub open spec fn is_digits(s: Seq<char>) -> bool {
    s.len() > 0 && forall|i: int| 0 <= i < s.len() ==> '0' <= #[trigger] s[i] <= '9'
}

/// Whether a text is written as a number: digits, with a sign before them and a
/// fraction after them where there are such.
pub open spec fn is_written_number(whole: Seq<char>, fraction: Seq<char>, s: Seq<char>) -> bool {
    &&& is_digits(whole)
    &&& is_digits(fraction)
    &&& s == whole || s == seq!['-'] + whole || s == whole + seq!['.'] + fraction || s == seq!['-']
        + whole + seq!['.'] + fraction
}

/// A value without quotation marks is a number where it is written as one.
pub proof fn law_numbers_are_numbers(whole: Seq<char>, fraction: Seq<char>, s: Seq<char>)
    requires
        is_written_number(whole, fraction, s),
    ensures
        property::value_of(s) == ValueView::Number(s),
        property::value_of(s + seq![',']) == ValueView::Number(s),
{
    let unsigned = if s[0] == '-' {
        s.drop_first()
    } else {
        s
    };
    assert('0' <= whole[0] <= '9' && '0' <= whole[whole.len() - 1] <= '9' && '0'
        <= fraction[fraction.len() - 1] <= '9');
    assert((seq!['-'] + whole).drop_first() =~= whole);
    assert((seq!['-'] + whole + seq!['.'] + fraction).drop_first() =~= whole + seq!['.']
        + fraction);
    assert(unsigned == whole || unsigned == whole + seq!['.'] + fraction);
    assert(!whole.contains('.'));
    texts::law_split_at_the_first_mark(whole, fraction, '.');
    assert(text::all_digits(whole));
    assert(text::all_digits(fraction));
    assert(property::is_number(s));
    assert(is_tight(s) && s.last() != ',' && s[0] != '"' && s[0] != '\'' && s[0] != 't' && s[0]
        != 'f' && s[0] != 'n');
    lemma_bare_value(s);
}

/// A value without quotation marks that is no number and none of the words of
/// truth and absence is the text as it is written.
pub proof fn law_words_are_texts(s: Seq<char>, i: int)
    requires
        is_tight(s),
        s.last() != ',',
        s[0] != '"' && s[0] != '\'',
        0 <= i < s.len(),
        !('0' <= s[i] <= '9') && s[i] != '.' && (i > 0 || s[i] != '-'),
    ensures
        property::value_of(s) == if s == "true"@ {
            ValueView::Bool(true)
        } else if s == "false"@ {
            ValueView::Bool(false)
        } else if s == "null"@ {
            ValueView::Null
        } else {
            ValueView::Text(s)
        },
        property::value_of(s + seq![',']) == property::value_of(s),
{
    let unsigned = if s[0] == '-' {
        s.drop_first()
    } else {
        s
    };
    let at = if s[0] == '-' {
        i - 1
    } else {
        i
    };
    assert(unsigned[at] == s[i]);
    text::lemma_index_of(unsigned, '.');
    let dot = text::index_of(unsigned, '.');
    if dot < unsigned.len() {
        if at < dot {
            assert(unsigned.take(dot)[at] == s[i]);
        } else {
            assert(unsigned.skip(dot + 1)[at - dot - 1] == s[i]);
        }
    }
    assert(!property::is_number(s));
    lemma_bare_value(s);
}

proof fn lemma_bare_value(s: Seq<char>)
    requires
        is_tight(s),
        s.last() != ',',
        s[0] != '"' && s[0] != '\'',
    ensures
        property::quoted(s) is None,
        property::without_comma(text::trim(s)) == s,
        property::without_comma(text::trim(s + seq![','])) == s,
        "true"@[0] == 't',
        "false"@[0] == 'f',
        "null"@[0] == 'n',
        "true"@.len() > 0,
        "false"@.len() > 0,
        "null"@.len() > 0,
{
    reveal_strlit("true");
    reveal_strlit("false");
    reveal_strlit("null");
    texts::law_trimming_keeps_the_text(Seq::empty(), s, Seq::empty());
    let ended = s + seq![','];
    assert(ended[0] == s[0] && ended.last() == ',');
    texts::law_trimming_keeps_the_text(Seq::empty(), ended, Seq::empty());
    assert(ended.drop_last() =~= s);
}

// ---------------------------------------------------------------------------
// Entries
// ---------------------------------------------------------------------------

/// Whether a text can stand as the key of an entry as it is.
pub open spec fn is_bare_key(key: Seq<char>) -> bool {
    is_tight(key) && !key.contains(':') && key[0] != '"' && key[0] != '\''
}

/// An entry is its key and its value: what stands before the first colon, and
/// what the text after it writes, whatever white space is between them.
pub proof fn law_entry_is_key_and_value(
    key: Seq<char>,
    gap: Seq<char>,
    value: Seq<char>,
)
    requires
        is_bare_key(key),
        is_blank(gap),
        is_tight(value),
    ensures
        property::entry_of(key + seq![':'] + (gap + value)) == Some(
            PropertyView { key, value: property::value_of(value) },
        ),
{
    texts::law_split_at_the_first_mark(key, gap + value, ':');
    texts::law_trimming_keeps_the_text(Seq::empty(), key, Seq::empty());
    texts::law_trimming_keeps_the_text(gap, value, Seq::empty());
    texts::law_trimming_keeps_the_text(Seq::empty(), value, Seq::empty());
    assert(gap + value + Seq::<char>::empty() =~= gap + value);
}

/// A quoted key is the text between its quotation marks.
pub proof fn law_quoted_key_is_its_text(
    key: Seq<char>,
    quote: char,
    gap: Seq<char>,
    value: Seq<char>,
)
    requires
        quote == '"' || quote == '\'',
        is_unmarked(key, quote),
        !key.contains(':'),
        is_blank(gap),
        is_tight(value),
    ensures
        property::entry_of(in_quotes(key, quote) + seq![':'] + (gap + value)) == Some(
            PropertyView { key, value: property::value_of(value) },
        ),
{
    let marked = in_quotes(key, quote);
    assert(!marked.contains(':')) by {
        if marked.contains(':') {
            let i = choose|i: int| 0 <= i < marked.len() && marked[i] == ':';
            assert(key[i - 1] == ':');
        }
    }
    law_quoted_value_is_its_text(key, quote);
    assert(marked[0] == quote && marked.last() == quote);
    texts::law_split_at_the_first_mark(marked, gap + value, ':');
    texts::law_trimming_keeps_the_text(Seq::empty(), marked, Seq::empty());
    texts::law_trimming_keeps_the_text(gap, value, Seq::empty());
    texts::law_trimming_keeps_the_text(Seq::empty(), value, Seq::empty());
    assert(gap + value + Seq::<char>::empty() =~= gap + value);
}

/// The entry of a key and a quoted text is the key with that text, for both kinds
/// of quotation marks.
pub proof fn law_quoted_entry_is_its_text(key: Seq<char>, t: Seq<char>, quote: char)
    requires
        is_bare_key(key),
        quote == '"' || quote == '\'',
        is_unmarked(t, quote),
    ensures
        property::entry_of(key + seq![':'] + (seq![' '] + in_quotes(t, quote))) == Some(
            PropertyView { key, value: ValueView::String(t) },
        ),
        property::entry_of(key + seq![':'] + (Seq::<char>::empty() + in_quotes(t, quote))) == Some(
            PropertyView { key, value: ValueView::String(t) },
        ),
{
    law_quoted_value_is_its_text(t, quote);
    let value = in_quotes(t, quote);
    assert(value[0] == quote && value.last() == quote);
    law_entry_is_key_and_value(key, seq![' '], value);
    law_entry_is_key_and_value(key, Seq::empty(), value);
}

/// A property object is read line by line: a line with a brace opens it, each
/// line with an entry adds its property, and a line with the closing brace ends
/// it, whatever comes after.
pub proof fn law_object_is_read_line_by_line(
    pad: Seq<char>,
    key: Seq<char>,
    value: Seq<char>,
    comma: bool,
    rest: Seq<Seq<char>>,
)
    requires
        is_blank(pad),
        is_bare_key(key),
        key[0] != '}',
        is_tight(value),
        value.last() != ',',
    ensures
        ({
            let entry = pad + (key + seq![':'] + (seq![' '] + value)) + if comma {
                seq![',']
            } else {
                Seq::empty()
            };
            property::object_properties(seq![entry] + rest, true) == seq![
                PropertyView { key, value: property::value_of(value) },
            ] + property::object_properties(rest, true)
        }),
        property::object_properties(seq![pad + seq!['{']] + rest, false)
            == property::object_properties(rest, true),
        property::object_properties(seq![pad + seq!['}']] + rest, true).len() == 0,
{
    let bare = key + seq![':'] + (seq![' '] + value);
    let end = if comma {
        seq![',']
    } else {
        Seq::<char>::empty()
    };
    let entry = pad + bare + end;
    let inner = bare + end;
    assert(bare[0] == key[0]);
    assert(bare.last() == value.last());
    assert(inner[0] == key[0]);
    assert(inner.last() == if comma { ',' } else { value.last() });
    texts::law_trimming_keeps_the_text(pad, inner, Seq::empty());
    assert(pad + inner + Seq::<char>::empty() =~= entry);
    texts::law_trimming_keeps_the_text(Seq::empty(), inner, Seq::empty());
    texts::law_trimming_keeps_the_text(Seq::empty(), bare, Seq::empty());
    if comma {
        assert(inner.drop_last() =~= bare);
    } else {
        assert(inner =~= bare);
    }
    assert(property::without_comma(inner) == bare);
    law_entry_is_key_and_value(key, seq![' '], value);
    let lines = seq![entry] + rest;
    assert(lines.drop_first() =~= rest);
    assert(lines[0] == entry);

    texts::law_trimming_keeps_the_text(pad, seq!['{'], Seq::empty());
    assert(pad + seq!['{'] + Seq::<char>::empty() =~= pad + seq!['{']);
    let opening = seq![pad + seq!['{']] + rest;
    assert(opening.drop_first() =~= rest);
    assert(seq!['{'].drop_first() =~= Seq::<char>::empty());
    assert(text::trim(Seq::<char>::empty()).len() == 0);
    assert(property::object_entry(opening[0], false).len() == 0);

    texts::law_trimming_keeps_the_text(pad, seq!['}'], Seq::empty());
    assert(pad + seq!['}'] + Seq::<char>::empty() =~= pad + seq!['}']);
    let closing = seq![pad + seq!['}']] + rest;
    assert(property::object_entry(closing[0], true) == seq!['}']);
}

/// A block that writes one property over three lines gives that property.
pub proof fn law_block_gives_its_property(key: Seq<char>, value: Seq<char>)
    requires
        is_bare_key(key),
        key[0] != '}',
        is_tight(value),
        value.last() != ',',
        !key.contains('\n') && !value.contains('\n'),
    ensures
        property::object_of(
            seq!['{'] + seq!['\n'] + (key + seq![':'] + (seq![' '] + value) + seq![','] + seq!['\n']
                + seq!['}']),
        ) == Some(seq![PropertyView { key, value: property::value_of(value) }]),
{
    let entry = key + seq![':'] + (seq![' '] + value) + seq![','];
    let s = seq!['{'] + seq!['\n'] + (entry + seq!['\n'] + seq!['}']);
    assert(!entry.contains('\n')) by {
        if entry.contains('\n') {
            let i = choose|i: int| 0 <= i < entry.len() && entry[i] == '\n';
            if i < key.len() {
                assert(key[i] == '\n');
            } else {
                assert(value[i - key.len() - 2] == '\n');
            }
        }
    }
    assert(entry.last() == ',');
    texts::law_lines_end_at_line_feeds(seq!['{'], entry + seq!['\n'] + seq!['}']);
    texts::law_lines_end_at_line_feeds(entry, seq!['}']);
    texts::law_lines_end_at_line_feeds(seq!['}'], Seq::empty());
    let lines = text::split::lines(s);
    assert(lines =~= seq![seq!['{'], entry, seq!['}']]);
    let none = Seq::<char>::empty();
    assert(none + seq!['{'] =~= seq!['{']);
    assert(none + seq!['}'] =~= seq!['}']);
    assert(none + (key + seq![':'] + (seq![' '] + value)) + seq![','] =~= entry);
    law_object_is_read_line_by_line(none, key, value, true, seq![entry, seq!['}']]);
    law_object_is_read_line_by_line(none, key, value, true, seq![seq!['}']]);
    law_object_is_read_line_by_line(none, key, value, true, Seq::empty());
    assert(lines =~= seq![seq!['{']] + seq![entry, seq!['}']]);
    assert(seq![entry, seq!['}']] =~= seq![entry] + seq![seq!['}']]);
    assert(seq![seq!['}']] =~= seq![seq!['}']] + Seq::<Seq<char>>::empty());
    let property = PropertyView { key, value: property::value_of(value) };
    assert(property::object_properties(seq![seq!['}']], true) =~= Seq::<PropertyView>::empty());
    assert(property::object_properties(lines, false) =~= seq![property]);
    assert(text::strip_first(seq!['{'], '{') is Some);
    assert(text::trim(seq!['{']) == seq!['{']);
    assert(property::object_open(lines[0], false));
}

/// The levels go by their names.
pub proof fn law_levels_have_their_names()
    ensures
        model::level_name(Level::Fatal) == "fatal"@,
        model::level_name(Level::Error) == "error"@,
        model::level_name(Level::Warn) == "warn"@,
        model::level_name(Level::Info) == "info"@,
        model::level_name(Level::Debug) == "debug"@,
        model::level_name(Level::Trace) == "trace"@,
        model::level_name(Level::Unknown) == "unknown"@,
{
}

} // verus!
