//! Properties written in messages: `key=value` words and `key: value` entries.
use crate::model::{LogProperty, PropertyValue, PropertyView, ValueView};
use crate::text;
use crate::text::split::chars_lines;
use crate::text::{
    char_is_name_char, char_is_space, chars_all_digits, chars_are, chars_index_of_space, chars_of,
    chars_skip, chars_split_once, chars_strip_first, chars_strip_last, chars_take, chars_trim,
    chars_trim_end, chars_trim_start, string_of,
};
use vstd::prelude::*;

verus! {

broadcast use text::lemma_views_push;

// ---------------------------------------------------------------------------
// Values
// ---------------------------------------------------------------------------

/// A quotation mark.
pub open spec fn is_quote(c: char) -> bool {
    c == '"' || c == '\''
}

/// What a character stands for after a backslash.
pub open spec fn unescaped(c: char) -> char {
    if c == 'n' {
        '\n'
    } else if c == 'r' {
        '\r'
    } else if c == 't' {
        '\t'
    } else {
        c
    }
}

fn unescape(c: char) -> (result: char)
    ensures
        result == unescaped(c),
{
    match c {
        'n' => '\n',
        'r' => '\r',
        't' => '\t',
        _ => c,
    }
}

/// An optional text with another one before it.
pub open spec fn prepend(head: Seq<char>, tail: Option<Seq<char>>) -> Option<Seq<char>> {
    match tail {
        Some(tail) => Some(head + tail),
        None => None,
    }
}

/// The text up to the closing quotation mark, with its escapes resolved;
/// nothing where no mark closes it.
pub open spec fn quoted_tail(s: Seq<char>, quote: char, escaped: bool) -> Option<Seq<char>>
    decreases s.len(),
{
    if s.len() == 0 {
        None
    } else if escaped {
        prepend(seq![unescaped(s[0])], quoted_tail(s.drop_first(), quote, false))
    } else if s[0] == '\\' {
        quoted_tail(s.drop_first(), quote, true)
    } else if s[0] == quote {
        Some(Seq::empty())
    } else {
        prepend(seq![s[0]], quoted_tail(s.drop_first(), quote, false))
    }
}

/// The text that a quoted string at the beginning of `s` holds.
pub open spec fn quoted(s: Seq<char>) -> Option<Seq<char>> {
    if s.len() > 0 && is_quote(s[0]) {
        quoted_tail(s.drop_first(), s[0], false)
    } else {
        None
    }
}

/// Reads the quoted string at the beginning of a text.
pub fn parse_quoted_string(s: &[char]) -> (result: Option<String>)
    ensures
        text::opt_view(result) == quoted(s@),
{
    if s.len() == 0 {
        return None;
    }
    let quote = s[0];
    if quote != '"' && quote != '\'' {
        return None;
    }
    let mut output = String::new();
    let mut escaped = false;
    let mut i: usize = 1;
    assert(s@.drop_first() =~= s@.skip(1));
    assert(quoted(s@) == prepend(output@, quoted_tail(s@.skip(1), quote, false))) by {
        match quoted_tail(s@.skip(1), quote, false) {
            Some(tail) => assert(output@ + tail =~= tail),
            None => {},
        }
    }
    while i < s.len()
        invariant
            1 <= i <= s@.len(),
            quoted(s@) == prepend(output@, quoted_tail(s@.skip(i as int), quote, escaped)),
        decreases s@.len() - i,
    {
        let ghost before = output@;
        let ghost rest = s@.skip(i as int);
        assert(rest.drop_first() =~= s@.skip(i + 1));
        let c = s[i];
        if escaped {
            output.push(unescape(c));
            escaped = false;
            proof {
                lemma_prepend_push(before, unescaped(c), quoted_tail(s@.skip(i + 1), quote, false));
            }
        } else if c == '\\' {
            escaped = true;
        } else if c == quote {
            assert(output@ + Seq::<char>::empty() =~= output@);
            return Some(output);
        } else {
            output.push(c);
            proof {
                lemma_prepend_push(before, c, quoted_tail(s@.skip(i + 1), quote, false));
            }
        }
        i += 1;
    }
    None
}

proof fn lemma_prepend_push(head: Seq<char>, c: char, tail: Option<Seq<char>>)
    ensures
        prepend(head, prepend(seq![c], tail)) == prepend(head.push(c), tail),
{
    match tail {
        Some(tail) => assert(head + (seq![c] + tail) =~= head.push(c) + tail),
        None => {},
    }
}

/// Whether a text is a number: digits, with an optional sign before them and
/// an optional fraction after them.
pub open spec fn is_number(s: Seq<char>) -> bool {
    let unsigned = match text::strip_first(s, '-') {
        Some(rest) => rest,
        None => s,
    };
    match text::split_once(unsigned, '.') {
        Some((whole, fraction)) => whole.len() > 0 && text::all_digits(whole) && text::all_digits(
            fraction,
        ),
        None => unsigned.len() > 0 && text::all_digits(unsigned),
    }
}

/// Whether a text is a number.
pub fn is_number_literal(s: &[char]) -> (result: bool)
    ensures
        result == is_number(s@),
{
    let unsigned = match chars_strip_first(s, '-') {
        Some(rest) => rest,
        None => s,
    };
    match chars_split_once(unsigned, '.') {
        Some((whole, fraction)) => whole.len() > 0 && chars_all_digits(whole) && chars_all_digits(
            fraction,
        ),
        None => unsigned.len() > 0 && chars_all_digits(unsigned),
    }
}

/// The text without trailing white space and one comma before it.
pub open spec fn without_comma(s: Seq<char>) -> Seq<char> {
    match text::strip_last(text::trim_end(s), ',') {
        Some(rest) => text::trim_end(rest),
        None => text::trim_end(s),
    }
}

/// Drops trailing white space and one comma.
pub fn trim_trailing_comma(s: &[char]) -> (result: &[char])
    ensures
        result@ == without_comma(s@),
{
    let trimmed = chars_trim_end(s);
    match chars_strip_last(trimmed, ',') {
        Some(rest) => chars_trim_end(rest),
        None => trimmed,
    }
}

/// The value that a text writes.
pub open spec fn value_of(s: Seq<char>) -> ValueView {
    let v = without_comma(text::trim(s));
    match quoted(v) {
        Some(value) => ValueView::String(value),
        None => if v == "true"@ {
            ValueView::Bool(true)
        } else if v == "false"@ {
            ValueView::Bool(false)
        } else if v == "null"@ {
            ValueView::Null
        } else if is_number(v) {
            ValueView::Number(v)
        } else {
            ValueView::Text(v)
        },
    }
}

/// Reads a value.
pub fn parse_property_value(s: &[char]) -> (result: PropertyValue)
    ensures
        result@ == value_of(s@),
{
    let value = trim_trailing_comma(chars_trim(s));
    match parse_quoted_string(value) {
        Some(value) => PropertyValue::String(value),
        None => {
            if chars_are(value, "true") {
                PropertyValue::Bool(true)
            } else if chars_are(value, "false") {
                PropertyValue::Bool(false)
            } else if chars_are(value, "null") {
                PropertyValue::Null
            } else if is_number_literal(value) {
                PropertyValue::Number(string_of(value))
            } else {
                PropertyValue::Text(string_of(value))
            }
        },
    }
}

// ---------------------------------------------------------------------------
// Entries and objects
// ---------------------------------------------------------------------------

/// The key that a text writes, quoted or bare.
pub open spec fn key_of(s: Seq<char>) -> Option<Seq<char>> {
    let key = text::trim(s);
    if key.len() == 0 {
        None
    } else {
        match quoted(key) {
            Some(value) => Some(value),
            None => Some(key),
        }
    }
}

fn parse_property_key(s: &[char]) -> (result: Option<String>)
    ensures
        text::opt_view(result) == key_of(s@),
{
    let key = chars_trim(s);
    if key.len() == 0 {
        return None;
    }
    match parse_quoted_string(key) {
        Some(value) => Some(value),
        None => Some(string_of(key)),
    }
}

/// The property that an entry `key: value` writes.
pub open spec fn entry_of(s: Seq<char>) -> Option<PropertyView> {
    match text::split_once(s, ':') {
        None => None,
        Some((key, value)) => match key_of(text::trim(key)) {
            None => None,
            Some(key) => Some(PropertyView { key, value: value_of(text::trim(value)) }),
        },
    }
}

/// Reads an entry `key: value`.
pub fn parse_property_entry(s: &[char]) -> (result: Option<LogProperty>)
    ensures
        text::opt_view(result) == entry_of(s@),
{
    match chars_split_once(s, ':') {
        None => None,
        Some((key, value)) => match parse_property_key(chars_trim(key)) {
            None => None,
            Some(key) => Some(
                LogProperty { key, value: parse_property_value(chars_trim(value)) },
            ),
        },
    }
}

/// The entry of a property object that a line holds, whether or not the object
/// is open before it: the line trimmed, without the brace that opens it.
pub open spec fn object_entry(line: Seq<char>, open: bool) -> Seq<char> {
    let entry = text::trim(line);
    if open {
        entry
    } else {
        match text::strip_first(entry, '{') {
            Some(rest) => text::trim(rest),
            None => Seq::empty(),
        }
    }
}

/// Whether a property object is open after a line.
pub open spec fn object_open(line: Seq<char>, open: bool) -> bool {
    open || text::strip_first(text::trim(line), '{') is Some
}

/// The properties in the lines of a property object, up to a line that begins
/// with `}`; lines before the brace that opens it are skipped.
pub open spec fn object_properties(lines: Seq<Seq<char>>, open: bool) -> Seq<PropertyView>
    decreases lines.len(),
{
    if lines.len() == 0 {
        Seq::empty()
    } else {
        let entry = object_entry(lines[0], open);
        let rest = object_properties(lines.drop_first(), object_open(lines[0], open));
        if entry.len() == 0 {
            rest
        } else if entry[0] == '}' {
            Seq::empty()
        } else {
            match entry_of(without_comma(entry)) {
                Some(property) => seq![property] + rest,
                None => rest,
            }
        }
    }
}

/// Whether some line opens a property object.
pub open spec fn object_opens(lines: Seq<Seq<char>>) -> bool {
    exists|i: int| 0 <= i < lines.len() && object_open(#[trigger] lines[i], false)
}

/// The properties of the object that a text writes over one or more lines.
pub open spec fn object_of(s: Seq<char>) -> Option<Seq<PropertyView>> {
    let lines = text::split::lines(s);
    if object_opens(lines) {
        Some(object_properties(lines, false))
    } else {
        None
    }
}

/// The views of an optional list of properties.
pub open spec fn list_view(list: Option<Vec<LogProperty>>) -> Option<Seq<PropertyView>> {
    match list {
        Some(list) => Some(text::views(list@)),
        None => None,
    }
}

/// Reads a property object.
pub fn parse_property_object(input: &str) -> (result: Option<Vec<LogProperty>>)
    ensures
        list_view(result) == object_of(input@),
{
    let chars = chars_of(input);
    let lines = chars_lines(chars.as_slice());
    let ghost all = text::split::slice_views(lines@);
    let mut saw_open = false;
    let mut properties: Vec<LogProperty> = Vec::new();
    let mut i: usize = 0;
    assert(all.skip(0) =~= all);
    assert(text::views(properties@) + object_properties(all, false) =~= object_properties(
        all,
        false,
    ));
    while i < lines.len()
        invariant
            i <= lines@.len(),
            all == text::split::slice_views(lines@),
            all == text::split::lines(input@),
            saw_open == (exists|j: int| 0 <= j < i && object_open(#[trigger] all[j], false)),
            object_properties(all, false) == text::views(properties@) + object_properties(
                all.skip(i as int),
                saw_open,
            ),
        decreases lines@.len() - i,
    {
        let ghost before = properties@;
        let ghost was_open = saw_open;
        let ghost rest = all.skip(i as int);
        assert(rest.drop_first() =~= all.skip(i + 1));
        assert(rest[0] == lines@[i as int]@);
        let mut entry = chars_trim(lines[i]);
        if !saw_open {
            match chars_strip_first(entry, '{') {
                Some(after) => {
                    saw_open = true;
                    entry = chars_trim(after);
                    assert(object_open(all[i as int], false));
                },
                None => {
                    i += 1;
                    continue ;
                },
            }
        }
        assert(entry@ == object_entry(rest[0], was_open));
        if entry.len() > 0 {
            if entry[0] == '}' {
                assert(object_opens(all)) by {
                    if was_open {
                        let j = choose|j: int|
                            0 <= j < i && object_open(#[trigger] all[j], false);
                        assert(object_open(all[j], false));
                    }
                }
                assert(object_properties(rest, was_open) == Seq::<PropertyView>::empty());
                assert(text::views(properties@) + Seq::<PropertyView>::empty() =~= text::views(
                    properties@,
                ));
                return Some(properties);
            }
            match parse_property_entry(trim_trailing_comma(entry)) {
                Some(property) => {
                    properties.push(property);
                    let ghost tail = object_properties(all.skip(i + 1), saw_open);
                    assert(text::views(before) + (seq![property@] + tail) =~= text::views(
                        properties@,
                    ) + tail);
                },
                None => {},
            }
        }
        i += 1;
    }
    assert(text::views(properties@) + Seq::<PropertyView>::empty() =~= text::views(properties@));
    if saw_open {
        Some(properties)
    } else {
        None
    }
}

// ---------------------------------------------------------------------------
// Entries between commas
// ---------------------------------------------------------------------------

/// The index of the first comma outside quotation marks, or the length.
pub open spec fn top_comma(s: Seq<char>, quote: Option<char>, escaped: bool) -> int
    decreases s.len(),
{
    if s.len() == 0 {
        0
    } else if escaped {
        1 + top_comma(s.drop_first(), quote, false)
    } else if s[0] == '\\' {
        1 + top_comma(s.drop_first(), quote, true)
    } else if quote is Some {
        1 + top_comma(
            s.drop_first(),
            if quote == Some(s[0]) {
                None
            } else {
                quote
            },
            false,
        )
    } else if is_quote(s[0]) {
        1 + top_comma(s.drop_first(), Some(s[0]), false)
    } else if s[0] == ',' {
        0
    } else {
        1 + top_comma(s.drop_first(), None, false)
    }
}

proof fn lemma_top_comma(s: Seq<char>, quote: Option<char>, escaped: bool)
    ensures
        0 <= top_comma(s, quote, escaped) <= s.len(),
    decreases s.len(),
{
    if s.len() > 0 {
        let rest = s.drop_first();
        lemma_top_comma(rest, quote, false);
        lemma_top_comma(rest, quote, true);
        lemma_top_comma(rest, None, false);
        lemma_top_comma(rest, Some(s[0]), false);
    }
}

/// The parts of a text between its commas outside quotation marks.
pub open spec fn comma_parts(s: Seq<char>) -> Seq<Seq<char>>
    decreases s.len(),
{
    let i = top_comma(s, None, false);
    if 0 <= i < s.len() {
        seq![s.take(i)] + comma_parts(s.skip(i + 1))
    } else {
        seq![s]
    }
}

fn find_top_comma(s: &[char]) -> (result: usize)
    ensures
        result == top_comma(s@, None, false),
        result <= s@.len(),
{
    let mut quote: Option<char> = None;
    let mut escaped = false;
    let mut i: usize = 0;
    assert(s@.skip(0) =~= s@);
    while i < s.len()
        invariant
            i <= s@.len(),
            top_comma(s@, None, false) == i + top_comma(s@.skip(i as int), quote, escaped),
        decreases s@.len() - i,
    {
        assert(s@.skip(i as int).drop_first() =~= s@.skip(i + 1));
        let c = s[i];
        if escaped {
            escaped = false;
        } else if c == '\\' {
            escaped = true;
        } else {
            match quote {
                Some(active) => {
                    if c == active {
                        quote = None;
                    }
                },
                None => {
                    if c == '"' || c == '\'' {
                        quote = Some(c);
                    } else if c == ',' {
                        return i;
                    }
                },
            }
        }
        i += 1;
    }
    i
}

/// Splits a text at its commas outside quotation marks.
pub fn split_top_level_commas(s: &[char]) -> (result: Vec<&[char]>)
    ensures
        text::split::slice_views(result@) == comma_parts(s@),
{
    let mut parts: Vec<&[char]> = Vec::new();
    let mut rest: &[char] = s;
    loop
        invariant
            comma_parts(s@) == text::split::slice_views(parts@) + comma_parts(rest@),
        decreases rest@.len(),
    {
        let ghost before = parts@;
        let i = find_top_comma(rest);
        if i < rest.len() {
            let head = chars_take(rest, i);
            let tail = chars_skip(rest, i + 1);
            parts.push(head);
            assert(text::split::slice_views(parts@) =~= text::split::slice_views(before).push(
                head@,
            ));
            assert(text::split::slice_views(before) + (seq![head@] + comma_parts(tail@))
                =~= text::split::slice_views(parts@) + comma_parts(tail@));
            rest = tail;
        } else {
            parts.push(rest);
            assert(text::split::slice_views(parts@) =~= text::split::slice_views(before).push(
                rest@,
            ));
            assert(text::split::slice_views(before) + seq![rest@] =~= text::split::slice_views(
                parts@,
            ));
            return parts;
        }
    }
}

/// The properties that a list of entries writes; what is no entry is skipped.
pub open spec fn entries_of(parts: Seq<Seq<char>>) -> Seq<PropertyView>
    decreases parts.len(),
{
    if parts.len() == 0 {
        Seq::empty()
    } else {
        match entry_of(text::trim(parts.last())) {
            Some(property) => entries_of(parts.drop_last()).push(property),
            None => entries_of(parts.drop_last()),
        }
    }
}

/// Reads entries between commas.
pub fn parse_comma_entries(s: &[char]) -> (result: Vec<LogProperty>)
    ensures
        text::views(result@) == entries_of(comma_parts(s@)),
{
    let parts = split_top_level_commas(s);
    let ghost all = text::split::slice_views(parts@);
    let mut properties: Vec<LogProperty> = Vec::new();
    let mut i: usize = 0;
    assert(text::views(properties@) =~= Seq::<PropertyView>::empty());
    while i < parts.len()
        invariant
            i <= parts@.len(),
            all == text::split::slice_views(parts@),
            text::views(properties@) == entries_of(all.take(i as int)),
        decreases parts@.len() - i,
    {
        assert(all.take(i + 1).drop_last() =~= all.take(i as int));
        assert(all.take(i + 1).last() == parts@[i as int]@);
        match parse_property_entry(chars_trim(parts[i])) {
            Some(property) => {
                properties.push(property);
            },
            None => {},
        }
        i += 1;
    }
    assert(all.take(i as int) =~= all);
    properties
}

// ---------------------------------------------------------------------------
// Inline properties
// ---------------------------------------------------------------------------

/// The number of leading name characters.
pub open spec fn name_len(s: Seq<char>) -> int
    decreases s.len(),
{
    if s.len() > 0 && text::is_name_char(s[0]) {
        1 + name_len(s.drop_first())
    } else {
        0
    }
}

/// The number of characters through the closing quotation mark, or -1 where
/// no mark closes the text.
pub open spec fn close_index(s: Seq<char>, quote: char, escaped: bool) -> int
    decreases s.len(),
{
    if s.len() == 0 {
        -1
    } else if !escaped && s[0] != '\\' && s[0] == quote {
        1
    } else {
        let rest = close_index(s.drop_first(), quote, !escaped && s[0] == '\\');
        if rest < 0 {
            -1
        } else {
            1 + rest
        }
    }
}

/// The length of the value at the beginning of a text: a quoted string, or
/// what stands before white space.
pub open spec fn value_len(s: Seq<char>) -> int {
    if s.len() > 0 && is_quote(s[0]) && close_index(s.drop_first(), s[0], false) >= 0 {
        1 + close_index(s.drop_first(), s[0], false)
    } else {
        text::index_of_space(s)
    }
}

pub proof fn lemma_inline_lengths(s: Seq<char>)
    ensures
        0 <= name_len(s) <= s.len(),
        forall|quote: char, escaped: bool|
            #![trigger close_index(s, quote, escaped)]
            -1 <= close_index(s, quote, escaped) <= s.len(),
        0 <= value_len(s) <= s.len(),
    decreases s.len(),
{
    text::lemma_index_of_space(s);
    if s.len() > 0 {
        lemma_inline_lengths(s.drop_first());
        assert forall|quote: char, escaped: bool|
            #![trigger close_index(s, quote, escaped)]
            -1 <= close_index(s, quote, escaped) <= s.len() by {
            let rest = close_index(s.drop_first(), quote, !escaped && s[0] == '\\');
            assert(-1 <= rest <= s.len() - 1);
        }
    }
}

/// The properties `key=value` in a text, in order. A word that does not begin
/// with a name and `=` is skipped, and so is an empty value.
pub open spec fn inline_properties(s: Seq<char>) -> Seq<PropertyView>
    decreases s.len(),
{
    let t = text::trim_start(s);
    let n = name_len(t);
    if t.len() == 0 {
        Seq::empty()
    } else if n == 0 || n >= t.len() || t[n] != '=' {
        let rest = t.skip(text::index_of_space(t));
        if rest.len() < s.len() {
            inline_properties(rest)
        } else {
            Seq::empty()
        }
    } else {
        let v = t.skip(n + 1);
        let value = v.take(value_len(v));
        let rest = v.skip(value_len(v));
        let tail = if rest.len() < s.len() {
            inline_properties(rest)
        } else {
            Seq::empty()
        };
        if value.len() == 0 {
            tail
        } else {
            seq![PropertyView { key: t.take(n), value: value_of(value) }] + tail
        }
    }
}

fn find_name_len(s: &[char]) -> (result: usize)
    ensures
        result == name_len(s@),
        result <= s@.len(),
{
    let mut i: usize = 0;
    assert(s@.skip(0) =~= s@);
    while i < s.len() && char_is_name_char(s[i])
        invariant
            i <= s@.len(),
            name_len(s@) == i + name_len(s@.skip(i as int)),
        decreases s@.len() - i,
    {
        assert(s@.skip(i as int).drop_first() =~= s@.skip(i + 1));
        i += 1;
    }
    i
}

fn inline_property_value_end(s: &[char]) -> (result: usize)
    ensures
        result == value_len(s@),
        result <= s@.len(),
{
    if s.len() == 0 || (s[0] != '"' && s[0] != '\'') {
        return chars_index_of_space(s);
    }
    let quote = s[0];
    let mut escaped = false;
    let mut i: usize = 1;
    let ghost body = s@.drop_first();
    assert(body =~= s@.skip(1));
    while i < s.len()
        invariant
            1 <= i <= s@.len(),
            is_quote(quote),
            quote == s@[0],
            body == s@.drop_first(),
            close_index(body, quote, false) < 0 <==> close_index(
                s@.skip(i as int),
                quote,
                escaped,
            ) < 0,
            close_index(body, quote, false) >= 0 ==> close_index(body, quote, false) == i - 1
                + close_index(s@.skip(i as int), quote, escaped),
        decreases s@.len() - i,
    {
        let ghost rest = s@.skip(i as int);
        assert(rest.drop_first() =~= s@.skip(i + 1));
        proof {
            lemma_inline_lengths(s@.skip(i + 1));
            lemma_inline_lengths(body);
        }
        let c = s[i];
        if escaped {
            escaped = false;
        } else if c == '\\' {
            escaped = true;
        } else if c == quote {
            return i + 1;
        }
        i += 1;
    }
    chars_index_of_space(s)
}

/// Reads the properties `key=value` in a text.
pub fn parse_word_properties(s: &[char]) -> (result: Vec<LogProperty>)
    ensures
        text::views(result@) == inline_properties(s@),
{
    let mut properties: Vec<LogProperty> = Vec::new();
    let mut rest: &[char] = s;
    assert(text::views(properties@) + inline_properties(s@) =~= inline_properties(s@));
    loop
        invariant
            inline_properties(s@) == text::views(properties@) + inline_properties(rest@),
        decreases rest@.len(),
    {
        let ghost before = properties@;
        let t = chars_trim_start(rest);
        proof {
            text::lemma_trim_bounds(rest@);
            text::lemma_index_of_space(t@);
            text::split::lemma_trim_start_head(rest@);
        }
        if t.len() == 0 {
            assert(text::views(properties@) + Seq::<PropertyView>::empty() =~= text::views(
                properties@,
            ));
            return properties;
        }
        let n = find_name_len(t);
        if n == 0 || n >= t.len() || t[n] != '=' {
            rest = chars_skip(t, chars_index_of_space(t));
            continue ;
        }
        let v = chars_skip(t, n + 1);
        let end = inline_property_value_end(v);
        let value = chars_take(v, end);
        let tail = chars_skip(v, end);
        if value.len() > 0 {
            let property = LogProperty {
                key: string_of(chars_take(t, n)),
                value: parse_property_value(value),
            };
            properties.push(property);
            assert(text::views(before) + (seq![property@] + inline_properties(tail@))
                =~= text::views(properties@) + inline_properties(tail@));
        }
        rest = tail;
    }
}

// ---------------------------------------------------------------------------
// Lines of objects
// ---------------------------------------------------------------------------

/// Whether a text is one quoted string and nothing after it.
pub open spec fn is_quoted_scalar(s: Seq<char>) -> bool {
    s.len() > 1 && is_quote(s[0]) && close_index(s.drop_first(), s[0], false) == s.len() - 1
}

/// Whether a text is one quoted string and nothing after it.
pub fn is_complete_quoted_scalar(s: &[char]) -> (result: bool)
    ensures
        result == is_quoted_scalar(s@),
{
    if s.len() < 2 || (s[0] != '"' && s[0] != '\'') {
        return false;
    }
    proof {
        lemma_inline_lengths(s@.skip(1));
    }
    assert(s@.drop_first() =~= s@.skip(1));
    let quote = s[0];
    let mut escaped = false;
    let mut i: usize = 1;
    while i < s.len()
        invariant
            1 <= i <= s@.len(),
            s@.len() > 1,
            is_quote(quote),
            quote == s@[0],
            s@.drop_first() == s@.skip(1),
            (close_index(s@.skip(1), quote, false) == s@.len() - 1) == (close_index(
                s@.skip(i as int),
                quote,
                escaped,
            ) == s@.len() - i),
        decreases s@.len() - i,
    {
        assert(s@.skip(i as int).drop_first() =~= s@.skip(i + 1));
        proof {
            lemma_inline_lengths(s@.skip(i + 1));
        }
        if escaped {
            escaped = false;
        } else if s[i] == '\\' {
            escaped = true;
        } else if s[i] == quote {
            return i == s.len() - 1;
        }
        i += 1;
    }
    false
}

/// A character that stands around the entries of objects and lists.
pub open spec fn is_frame(c: char) -> bool {
    text::is_space(c) || c == '{' || c == '}' || c == '[' || c == ']' || c == ','
}

/// Whether a line can stand within an object that is written over several
/// lines: brackets, an object, an entry or a value.
pub open spec fn is_body_line(message: Seq<char>) -> bool {
    let trimmed = text::trim(message);
    let scalar = without_comma(trimmed);
    ||| forall|i: int| 0 <= i < trimmed.len() ==> is_frame(#[trigger] trimmed[i])
    ||| object_of(trimmed) is Some
    ||| entry_of(scalar) is Some
    ||| is_quoted_scalar(scalar)
    ||| is_number(scalar)
    ||| scalar == "true"@ || scalar == "false"@ || scalar == "null"@
}

fn chars_all_frame(s: &[char]) -> (result: bool)
    ensures
        result == forall|i: int| 0 <= i < s@.len() ==> is_frame(#[trigger] s@[i]),
{
    let mut i: usize = 0;
    while i < s.len()
        invariant
            i <= s@.len(),
            forall|j: int| 0 <= j < i ==> is_frame(#[trigger] s@[j]),
        decreases s@.len() - i,
    {
        let c = s[i];
        if !(char_is_space(c) || c == '{' || c == '}' || c == '[' || c == ']' || c == ',') {
            assert(!is_frame(s@[i as int]));
            return false;
        }
        i += 1;
    }
    true
}

/// Whether a line can stand within an object that is written over several
/// lines.
pub fn is_property_body_line(message: &str) -> (result: bool)
    ensures
        result == is_body_line(message@),
{
    let chars = chars_of(message);
    let trimmed = chars_trim(chars.as_slice());
    if chars_all_frame(trimmed) {
        return true;
    }
    let whole = string_of(trimmed);
    if parse_property_object(whole.as_str()).is_some() {
        return true;
    }
    let scalar = trim_trailing_comma(trimmed);
    parse_property_entry(scalar).is_some() || is_complete_quoted_scalar(scalar)
        || is_number_literal(scalar) || chars_are(scalar, "true") || chars_are(scalar, "false")
        || chars_are(scalar, "null")
}

} // verus!
