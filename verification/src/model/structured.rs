//! Timestamps, levels and property block headers in messages.
use crate::model::clean::clean_chars;
use crate::model::source::{self, message_without_source_prefix, split_source_message};
use crate::model::{self, clean, level_from_chars, Level, PropertyBlockHeader, StructuredMessage};
use crate::model::{HeaderView, StructuredMessageView};
use crate::text;
use crate::text::split::chars_fields;
use crate::text::{
    char_is_ascii_alnum, char_is_digit, chars_all_digits, chars_of, chars_split_once,
    chars_strip_first, chars_strip_prefix, chars_trim, chars_trim_end_char, chars_trim_start,
    push_chars, split_first_token, string_of,
};
use vstd::prelude::*;

verus! {

/// Whether a word can be a time: digits, dots and colons, at least five of
/// them, with a digit and a colon among them.
pub open spec fn is_timestamp(s: Seq<char>) -> bool {
    &&& s.len() >= 5
    &&& forall|i: int|
        0 <= i < s.len() ==> #[trigger] s[i] == ':' || s[i] == '.' || text::is_digit(s[i])
    &&& s.contains(':')
    &&& exists|i: int| 0 <= i < s.len() && text::is_digit(#[trigger] s[i])
}

/// Whether a word looks like a time.
pub fn looks_like_timestamp(s: &[char]) -> (result: bool)
    ensures
        result == is_timestamp(s@),
{
    let mut has_colon = false;
    let mut has_digit = false;
    let mut i: usize = 0;
    while i < s.len()
        invariant
            i <= s@.len(),
            forall|j: int|
                0 <= j < i ==> #[trigger] s@[j] == ':' || s@[j] == '.' || text::is_digit(s@[j]),
            has_colon == exists|j: int| 0 <= j < i && #[trigger] s@[j] == ':',
            has_digit == exists|j: int| 0 <= j < i && text::is_digit(#[trigger] s@[j]),
        decreases s@.len() - i,
    {
        if s[i] == ':' {
            has_colon = true;
            assert(s@[i as int] == ':');
        } else if char_is_digit(s[i]) {
            has_digit = true;
            assert(text::is_digit(s@[i as int]));
        } else if s[i] != '.' {
            assert(!text::is_digit(s@[i as int]));
            return false;
        }
        i += 1;
    }
    has_colon && has_digit && s.len() >= 5
}

/// Whether a word can be a date: four, two and two digits between hyphens.
pub open spec fn is_date(s: Seq<char>) -> bool {
    let parts = text::split::fields(s, '-');
    &&& parts.len() == 3
    &&& parts[0].len() == 4 && text::all_digits(parts[0])
    &&& parts[1].len() == 2 && text::all_digits(parts[1])
    &&& parts[2].len() == 2 && text::all_digits(parts[2])
}

/// Whether a word looks like a date.
pub fn looks_like_date(s: &[char]) -> (result: bool)
    ensures
        result == is_date(s@),
{
    let parts = chars_fields(s, '-');
    if parts.len() != 3 {
        return false;
    }
    let (year, month, day) = (parts[0], parts[1], parts[2]);
    assert(text::split::slice_views(parts@)[0] == year@);
    assert(text::split::slice_views(parts@)[1] == month@);
    assert(text::split::slice_views(parts@)[2] == day@);
    year.len() == 4 && chars_all_digits(year) && month.len() == 2 && chars_all_digits(month)
        && day.len() == 2 && chars_all_digits(day)
}

/// The level that a word names, with or without colons after it.
pub open spec fn token_level(s: Seq<char>) -> Option<Level> {
    model::level_of(text::trim_end_char(s, ':'))
}

/// Reads a level from a word, with or without colons after it.
pub fn parse_level_token(token: &[char]) -> (result: Option<Level>)
    ensures
        result == token_level(token@),
{
    level_from_chars(chars_trim_end_char(token, ':'))
}

/// A level word and the message after it, with the timestamp before it.
pub open spec fn leveled(rest: Seq<char>, timestamp: Seq<char>) -> Option<StructuredMessageView> {
    match text::first_token(text::trim_start(rest)) {
        Some((token, remainder)) => match token_level(token) {
            Some(level) => Some(
                StructuredMessageView {
                    timestamp: Some(timestamp),
                    level,
                    message: text::trim_start(remainder),
                },
            ),
            None => None,
        },
        None => None,
    }
}

/// A message that begins with a level, or with a time and a level.
pub open spec fn undated(first: Seq<char>, rest: Seq<char>) -> Option<StructuredMessageView> {
    if is_timestamp(first) {
        leveled(rest, first)
    } else {
        match token_level(first) {
            Some(level) => Some(
                StructuredMessageView { timestamp: None, level, message: text::trim_start(rest) },
            ),
            None => None,
        }
    }
}

/// A clean message with its leading timestamp and level told apart; nothing
/// where it does not begin with a level after an optional timestamp.
pub open spec fn structured_clean(message: Seq<char>) -> Option<StructuredMessageView> {
    match text::first_token(text::trim(message)) {
        None => None,
        Some((first, rest)) => if is_date(first) {
            match text::first_token(text::trim_start(rest)) {
                None => None,
                Some((time, after)) => if is_timestamp(time) {
                    leveled(after, first + " "@ + time)
                } else {
                    undated(first, rest)
                },
            }
        } else {
            undated(first, rest)
        },
    }
}

/// A message with its leading timestamp and level told apart.
pub open spec fn structured(message: Seq<char>) -> Option<StructuredMessageView> {
    structured_clean(clean::clean(message))
}

fn parse_leveled(rest: &[char], timestamp: String) -> (result: Option<StructuredMessage>)
    ensures
        text::opt_view(result) == leveled(rest@, timestamp@),
{
    match split_first_token(chars_trim_start(rest)) {
        Some((token, remainder)) => match parse_level_token(token) {
            Some(level) => Some(
                StructuredMessage {
                    timestamp: Some(timestamp),
                    level,
                    message: string_of(chars_trim_start(remainder)),
                },
            ),
            None => None,
        },
        None => None,
    }
}

/// Tells the leading timestamp and level of a message apart.
pub fn parse_structured_message(message: &str) -> (result: Option<StructuredMessage>)
    ensures
        text::opt_view(result) == structured(message@),
{
    let cleaned = clean_chars(message);
    let trimmed = chars_trim(cleaned.as_slice());
    match split_first_token(trimmed) {
        None => None,
        Some((first, rest)) => {
            if looks_like_date(first) {
                match split_first_token(chars_trim_start(rest)) {
                    None => {
                        return None;
                    },
                    Some((time, after)) => {
                        if looks_like_timestamp(time) {
                            let mut timestamp: Vec<char> = Vec::new();
                            push_chars(&mut timestamp, first);
                            assert(timestamp@ =~= first@);
                            text::push_str(&mut timestamp, " ");
                            push_chars(&mut timestamp, time);
                            return parse_leveled(after, string_of(timestamp.as_slice()));
                        }
                    },
                }
            }
            if looks_like_timestamp(first) {
                return parse_leveled(rest, string_of(first));
            }
            match parse_level_token(first) {
                Some(level) => Some(
                    StructuredMessage {
                        timestamp: None,
                        level,
                        message: string_of(chars_trim_start(rest)),
                    },
                ),
                None => None,
            }
        },
    }
}

/// What follows the optional marker `(#...)` of a header.
pub open spec fn after_marker(s: Seq<char>) -> Option<Seq<char>> {
    match text::strip_prefix(s, "(#"@) {
        Some(marker) => match text::split_once(marker, ')') {
            Some((_, rest)) => Some(text::trim_start(rest)),
            None => None,
        },
        None => Some(s),
    }
}

/// The header `[timestamp] level (#marker):` that a message holds.
pub open spec fn header_in(message: Seq<char>, source: Option<Seq<char>>) -> Option<HeaderView> {
    match text::strip_first(text::trim(message), '[') {
        None => None,
        Some(rest) => match text::split_once(rest, ']') {
            None => None,
            Some((timestamp, after)) => if !is_timestamp(timestamp) {
                None
            } else {
                match text::first_token(text::trim_start(after)) {
                    None => None,
                    Some((token, tail)) => match model::level_of(token) {
                        None => None,
                        Some(level) => match after_marker(text::trim_start(tail)) {
                            None => None,
                            Some(end) => if text::strip_first(end, ':') is None {
                                None
                            } else {
                                Some(HeaderView { timestamp, level, source })
                            },
                        },
                    },
                }
            },
        },
    }
}

/// The property block header that a line is.
pub open spec fn block_header(line: Seq<char>) -> Option<HeaderView> {
    let split = source::source_message(line);
    header_in(split.1, split.0)
}

fn skip_marker(s: &[char]) -> (result: Option<&[char]>)
    ensures
        text::slice_view(result) == after_marker(s@),
{
    match chars_strip_prefix(s, "(#") {
        Some(marker) => match chars_split_once(marker, ')') {
            Some((_, rest)) => Some(chars_trim_start(rest)),
            None => None,
        },
        None => Some(s),
    }
}

/// Reads a property block header.
pub fn parse_property_block_header(line: &str) -> (result: Option<PropertyBlockHeader>)
    ensures
        text::opt_view(result) == block_header(line@),
{
    let source = split_source_message(line).source;
    let message = message_without_source_prefix(line);
    let chars = chars_of(message.as_str());
    let trimmed = chars_trim(chars.as_slice());
    match chars_strip_first(trimmed, '[') {
        None => None,
        Some(rest) => match chars_split_once(rest, ']') {
            None => None,
            Some((timestamp, after)) => {
                if !looks_like_timestamp(timestamp) {
                    return None;
                }
                match split_first_token(chars_trim_start(after)) {
                    None => None,
                    Some((token, tail)) => match level_from_chars(token) {
                        None => None,
                        Some(level) => match skip_marker(chars_trim_start(tail)) {
                            None => None,
                            Some(end) => match chars_strip_first(end, ':') {
                                None => None,
                                Some(_) => Some(
                                    PropertyBlockHeader {
                                        timestamp: string_of(timestamp),
                                        level,
                                        source,
                                    },
                                ),
                            },
                        },
                    },
                }
            },
        },
    }
}

/// How a level ranks where several are found: the more serious, the higher.
pub open spec fn priority(level: Level) -> int {
    match level {
        Level::Fatal => 6,
        Level::Error => 5,
        Level::Warn => 4,
        Level::Info => 3,
        Level::Debug => 2,
        Level::Trace => 1,
        Level::Unknown => 0,
    }
}

/// The rank of a level.
pub fn level_priority(level: Level) -> (result: u8)
    ensures
        result == priority(level),
{
    match level {
        Level::Fatal => 6,
        Level::Error => 5,
        Level::Warn => 4,
        Level::Info => 3,
        Level::Debug => 2,
        Level::Trace => 1,
        Level::Unknown => 0,
    }
}

/// Whether `s[i..j]` is a maximal run of ASCII letters and digits.
pub open spec fn is_run(s: Seq<char>, i: int, j: int) -> bool {
    &&& 0 <= i <= j <= s.len()
    &&& forall|k: int| i <= k < j ==> text::is_ascii_alnum(#[trigger] s[k])
    &&& i == 0 || !text::is_ascii_alnum(s[i - 1])
    &&& j == s.len() || !text::is_ascii_alnum(s[j])
}

/// Whether a message holds the word of a level.
pub open spec fn mentions(s: Seq<char>, level: Level) -> bool {
    exists|i: int, j: int| #[trigger]
        is_run(s, i, j) && model::level_of(s.subrange(i, j)) == Some(level)
}

/// Whether `level` is the most serious level whose word the message holds, or
/// `Unknown` where it holds none.
pub open spec fn is_inferred(s: Seq<char>, level: Level) -> bool {
    &&& level == Level::Unknown || mentions(s, level)
    &&& forall|other: Level| #[trigger] mentions(s, other) ==> priority(other) <= priority(level)
}

/// A message has one inferred level.
pub proof fn law_inferred_level_is_unique(s: Seq<char>, first: Level, second: Level)
    requires
        is_inferred(s, first),
        is_inferred(s, second),
    ensures
        first == second,
{
    assert(first == Level::Unknown || mentions(s, first));
    assert(second == Level::Unknown || mentions(s, second));
}

/// The inferred level of a message.
pub open spec fn inferred(s: Seq<char>) -> Level {
    choose|level: Level| is_inferred(s, level)
}

/// The level of the most serious level word in a message.
pub fn infer_level(message: &str) -> (result: Level)
    ensures
        result == inferred(message@),
        is_inferred(message@, result),
{
    let chars = chars_of(message);
    let s = chars.as_slice();
    let mut inferred = Level::Unknown;
    let mut start: usize = 0;
    let mut i: usize = 0;
    loop
        invariant_except_break
            start <= i <= s@.len(),
            forall|k: int| start <= k < i ==> text::is_ascii_alnum(#[trigger] s@[k]),
            start == 0 || !text::is_ascii_alnum(s@[start - 1]),
            forall|a: int, b: int|
                #[trigger] is_run(s@, a, b) && b < start ==> (match model::level_of(
                    s@.subrange(a, b),
                ) {
                    Some(other) => priority(other) <= priority(inferred),
                    None => true,
                }),
        invariant
            s@ == message@,
            inferred == Level::Unknown || mentions(s@, inferred),
        ensures
            forall|a: int, b: int| #[trigger]
                is_run(s@, a, b) ==> (match model::level_of(s@.subrange(a, b)) {
                    Some(other) => priority(other) <= priority(inferred),
                    None => true,
                }),
        decreases s@.len() - i,
    {
        if i < s.len() && char_is_ascii_alnum(s[i]) {
            i += 1;
            continue ;
        }
        assert(is_run(s@, start as int, i as int));
        let word = vstd::slice::slice_subrange(s, start, i);
        let found = level_from_chars(word);
        let ghost previous = inferred;
        match found {
            Some(level) => {
                if level_priority(level) > level_priority(inferred) {
                    inferred = level;
                    assert(model::level_of(s@.subrange(start as int, i as int)) == Some(inferred));
                    assert(mentions(s@, inferred));
                }
            },
            None => {},
        }
        assert forall|a: int, b: int| #[trigger] is_run(s@, a, b) && b < i + 1 implies (
        match model::level_of(s@.subrange(a, b)) {
            Some(other) => priority(other) <= priority(inferred),
            None => true,
        }) by {
            if b < start {
            } else {
                // A run that ends at or after `start` and before `i + 1` is this one.
                if b < i {
                    assert(text::is_ascii_alnum(s@[b]));
                }
                assert(b == i);
                if a < start {
                    assert(text::is_ascii_alnum(s@[start - 1]));
                }
                if a > start {
                    assert(text::is_ascii_alnum(s@[a - 1]));
                }
            }
        }
        if i == s.len() {
            break ;
        }
        i += 1;
        start = i;
    }
    assert forall|other: Level| #[trigger] mentions(s@, other) implies priority(other) <= priority(
        inferred,
    ) by {
        let (a, b) = choose|a: int, b: int| #[trigger]
            is_run(s@, a, b) && model::level_of(s@.subrange(a, b)) == Some(other);
        assert(is_run(s@, a, b));
    }
    proof {
        assert(is_inferred(s@, inferred));
        law_inferred_level_is_unique(s@, inferred, self::inferred(s@));
    }
    inferred
}

} // verus!
