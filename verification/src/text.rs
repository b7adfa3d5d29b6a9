//! Text as sequences of characters.
//!
//! Parsing works on character slices; strings are taken apart and put together
//! at the edges. Every specification function here speaks of `Seq<char>`, the
//! view of `str` and `String`.
pub mod bytes;
pub mod laws;
pub mod number;
pub mod order;
pub mod split;

use vstd::prelude::*;
use vstd::slice::slice_subrange;

verus! {

/// `String::push` appends one character.
pub assume_specification[ std::string::String::push ](string: &mut std::string::String, ch: char)
    ensures
        final(string)@ == old(string)@.push(ch),
;

// ---------------------------------------------------------------------------
// Views of containers
// ---------------------------------------------------------------------------

/// The views of the elements of a sequence, in order.
pub open spec fn views<T: View>(items: Seq<T>) -> Seq<T::V> {
    Seq::new(items.len(), |i: int| items[i]@)
}

/// The view of an optional value.
pub open spec fn opt_view<T: View>(item: Option<T>) -> Option<T::V> {
    match item {
        Some(value) => Some(value@),
        None => None,
    }
}

pub broadcast proof fn lemma_views_push<T: View>(items: Seq<T>, item: T)
    ensures
        #[trigger] views(items.push(item)) == views(items).push(item@),
{
    assert(views(items.push(item)) =~= views(items).push(item@));
}

// ---------------------------------------------------------------------------
// Characters
// ---------------------------------------------------------------------------

/// Unicode's `White_Space` property.
pub open spec fn is_space(c: char) -> bool {
    ||| '\t' <= c <= '\r'
    ||| c == ' '
    ||| c == '\u{85}'
    ||| c == '\u{a0}'
    ||| c == '\u{1680}'
    ||| '\u{2000}' <= c <= '\u{200a}'
    ||| c == '\u{2028}'
    ||| c == '\u{2029}'
    ||| c == '\u{202f}'
    ||| c == '\u{205f}'
    ||| c == '\u{3000}'
}

/// Unicode's general category `Cc`: the control codes.
pub open spec fn is_control(c: char) -> bool {
    c <= '\u{1f}' || '\u{7f}' <= c <= '\u{9f}'
}

pub open spec fn is_digit(c: char) -> bool {
    '0' <= c <= '9'
}

pub open spec fn is_upper(c: char) -> bool {
    'A' <= c <= 'Z'
}

pub open spec fn is_ascii_letter(c: char) -> bool {
    is_upper(c) || 'a' <= c <= 'z'
}

pub open spec fn is_ascii_alnum(c: char) -> bool {
    is_digit(c) || is_ascii_letter(c)
}

/// The ASCII lower-case form: only `A` to `Z` change.
pub open spec fn lower(c: char) -> char {
    if is_upper(c) {
        (c as u32 + 32) as char
    } else {
        c
    }
}

/// Whether a character is white space.
pub fn char_is_space(c: char) -> (result: bool)
    ensures
        result == is_space(c),
{
    ('\t' <= c && c <= '\r') || c == ' ' || c == '\u{85}' || c == '\u{a0}' || c == '\u{1680}' || (
    '\u{2000}' <= c && c <= '\u{200a}') || c == '\u{2028}' || c == '\u{2029}' || c == '\u{202f}'
        || c == '\u{205f}' || c == '\u{3000}'
}

/// Whether a character is a control code.
pub fn char_is_control(c: char) -> (result: bool)
    ensures
        result == is_control(c),
{
    c <= '\u{1f}' || ('\u{7f}' <= c && c <= '\u{9f}')
}

/// Whether a character is an ASCII digit.
pub fn char_is_digit(c: char) -> (result: bool)
    ensures
        result == is_digit(c),
{
    '0' <= c && c <= '9'
}

/// Whether a character is an ASCII letter or digit.
pub fn char_is_ascii_alnum(c: char) -> (result: bool)
    ensures
        result == is_ascii_alnum(c),
{
    char_is_digit(c) || ('A' <= c && c <= 'Z') || ('a' <= c && c <= 'z')
}

/// The ASCII lower-case form of a character.
pub fn char_lower(c: char) -> (result: char)
    ensures
        result == lower(c),
{
    if 'A' <= c && c <= 'Z' {
        let code: u8 = c as u8;
        (code + 32) as char
    } else {
        c
    }
}

// ---------------------------------------------------------------------------
// Strings and character slices
// ---------------------------------------------------------------------------

/// The characters of a string.
pub fn chars_of(text: &str) -> (result: Vec<char>)
    ensures
        result@ == text@,
{
    let mut result: Vec<char> = Vec::new();
    for c in it: text.chars()
        invariant
            it.seq() == text@,
            result@ == text@.take(it.index()),
    {
        result.push(c);
    }
    assert(text@.take(text@.len() as int) =~= text@);
    result
}

/// The string of some characters.
pub fn string_of(chars: &[char]) -> (result: String)
    ensures
        result@ == chars@,
{
    let mut result = String::new();
    let mut i: usize = 0;
    while i < chars.len()
        invariant
            i <= chars@.len(),
            result@ == chars@.take(i as int),
        decreases chars@.len() - i,
    {
        result.push(chars[i]);
        i += 1;
        assert(chars@.take(i as int) =~= chars@.take(i - 1).push(chars@[i - 1]));
    }
    assert(chars@.take(chars@.len() as int) =~= chars@);
    result
}

/// A string equal to the given one.
pub fn copy_str(text: &str) -> (result: String)
    ensures
        result@ == text@,
{
    text.to_owned()
}

/// Whether two strings hold the same characters.
pub fn same(left: &str, right: &str) -> (result: bool)
    ensures
        result == (left@ == right@),
{
    chars_same(chars_of(left).as_slice(), chars_of(right).as_slice())
}

/// Whether two slices hold the same characters.
pub fn chars_same(left: &[char], right: &[char]) -> (result: bool)
    ensures
        result == (left@ == right@),
{
    if left.len() != right.len() {
        return false;
    }
    let mut i: usize = 0;
    while i < left.len()
        invariant
            i <= left@.len(),
            left@.len() == right@.len(),
            left@.take(i as int) == right@.take(i as int),
        decreases left@.len() - i,
    {
        if left[i] != right[i] {
            assert(left@[i as int] != right@[i as int]);
            return false;
        }
        i += 1;
        assert(left@.take(i as int) =~= left@.take(i - 1).push(left@[i - 1]));
        assert(right@.take(i as int) =~= right@.take(i - 1).push(right@[i - 1]));
    }
    assert(left@.take(left@.len() as int) =~= left@);
    assert(right@.take(right@.len() as int) =~= right@);
    true
}

/// Whether a slice holds the characters of a string.
pub fn chars_are(left: &[char], right: &str) -> (result: bool)
    ensures
        result == (left@ == right@),
{
    chars_same(left, chars_of(right).as_slice())
}


// ---------------------------------------------------------------------------
// Trimming
// ---------------------------------------------------------------------------

/// The text without its leading white space.
pub open spec fn trim_start(s: Seq<char>) -> Seq<char>
    decreases s.len(),
{
    if s.len() > 0 && is_space(s[0]) {
        trim_start(s.drop_first())
    } else {
        s
    }
}

/// The text without its trailing white space.
pub open spec fn trim_end(s: Seq<char>) -> Seq<char>
    decreases s.len(),
{
    if s.len() > 0 && is_space(s.last()) {
        trim_end(s.drop_last())
    } else {
        s
    }
}

/// The text without leading and trailing white space.
pub open spec fn trim(s: Seq<char>) -> Seq<char> {
    trim_end(trim_start(s))
}

/// The text without its trailing occurrences of one character.
pub open spec fn trim_end_char(s: Seq<char>, c: char) -> Seq<char>
    decreases s.len(),
{
    if s.len() > 0 && s.last() == c {
        trim_end_char(s.drop_last(), c)
    } else {
        s
    }
}

/// The text without its trailing carriage returns and line feeds.
pub open spec fn trim_end_newlines(s: Seq<char>) -> Seq<char>
    decreases s.len(),
{
    if s.len() > 0 && (s.last() == '\r' || s.last() == '\n') {
        trim_end_newlines(s.drop_last())
    } else {
        s
    }
}

/// Drops leading white space.
pub fn chars_trim_start(s: &[char]) -> (result: &[char])
    ensures
        result@ == trim_start(s@),
{
    let mut i: usize = 0;
    assert(s@.skip(0) =~= s@);
    while i < s.len() && char_is_space(s[i])
        invariant
            i <= s@.len(),
            trim_start(s@) == trim_start(s@.skip(i as int)),
        decreases s@.len() - i,
    {
        assert(s@.skip(i as int).drop_first() =~= s@.skip(i + 1));
        i += 1;
    }
    assert(s@.skip(i as int) =~= s@.subrange(i as int, s@.len() as int));
    slice_subrange(s, i, s.len())
}

/// Drops trailing white space.
pub fn chars_trim_end(s: &[char]) -> (result: &[char])
    ensures
        result@ == trim_end(s@),
{
    let mut i: usize = s.len();
    assert(s@.take(i as int) =~= s@);
    while i > 0 && char_is_space(s[i - 1])
        invariant
            i <= s@.len(),
            trim_end(s@) == trim_end(s@.take(i as int)),
        decreases i,
    {
        assert(s@.take(i as int).drop_last() =~= s@.take(i - 1));
        i -= 1;
    }
    assert(s@.take(i as int) =~= s@.subrange(0, i as int));
    slice_subrange(s, 0, i)
}

/// Drops leading and trailing white space.
pub fn chars_trim(s: &[char]) -> (result: &[char])
    ensures
        result@ == trim(s@),
{
    chars_trim_end(chars_trim_start(s))
}

/// Drops trailing occurrences of one character.
pub fn chars_trim_end_char(s: &[char], c: char) -> (result: &[char])
    ensures
        result@ == trim_end_char(s@, c),
{
    let mut i: usize = s.len();
    assert(s@.take(i as int) =~= s@);
    while i > 0 && s[i - 1] == c
        invariant
            i <= s@.len(),
            trim_end_char(s@, c) == trim_end_char(s@.take(i as int), c),
        decreases i,
    {
        assert(s@.take(i as int).drop_last() =~= s@.take(i - 1));
        i -= 1;
    }
    assert(s@.take(i as int) =~= s@.subrange(0, i as int));
    slice_subrange(s, 0, i)
}

/// Drops trailing carriage returns and line feeds.
pub fn chars_trim_end_newlines(s: &[char]) -> (result: &[char])
    ensures
        result@ == trim_end_newlines(s@),
{
    let mut i: usize = s.len();
    assert(s@.take(i as int) =~= s@);
    while i > 0 && (s[i - 1] == '\r' || s[i - 1] == '\n')
        invariant
            i <= s@.len(),
            trim_end_newlines(s@) == trim_end_newlines(s@.take(i as int)),
        decreases i,
    {
        assert(s@.take(i as int).drop_last() =~= s@.take(i - 1));
        i -= 1;
    }
    assert(s@.take(i as int) =~= s@.subrange(0, i as int));
    slice_subrange(s, 0, i)
}

/// A trimmed text is a part of the text.
pub proof fn lemma_trim_bounds(s: Seq<char>)
    ensures
        trim_start(s).len() <= s.len(),
        trim_end(s).len() <= s.len(),
        trim(s).len() <= s.len(),
    decreases s.len(),
{
    if s.len() > 0 {
        lemma_trim_bounds(s.drop_first());
    }
    lemma_trim_end_bounds(s);
    lemma_trim_end_bounds(trim_start(s));
}

proof fn lemma_trim_end_bounds(s: Seq<char>)
    ensures
        trim_end(s).len() <= s.len(),
    decreases s.len(),
{
    if s.len() > 0 && is_space(s.last()) {
        lemma_trim_end_bounds(s.drop_last());
    }
}

// ---------------------------------------------------------------------------
// Searching and splitting
// ---------------------------------------------------------------------------

/// The index of the first occurrence of a character, or the length.
pub open spec fn index_of(s: Seq<char>, c: char) -> int
    decreases s.len(),
{
    if s.len() == 0 || s[0] == c {
        0
    } else {
        1 + index_of(s.drop_first(), c)
    }
}

/// The index of the first white space, or the length.
pub open spec fn index_of_space(s: Seq<char>) -> int
    decreases s.len(),
{
    if s.len() == 0 || is_space(s[0]) {
        0
    } else {
        1 + index_of_space(s.drop_first())
    }
}

/// `index_of` is the first position that holds the character.
pub proof fn lemma_index_of(s: Seq<char>, c: char)
    ensures
        0 <= index_of(s, c) <= s.len(),
        index_of(s, c) < s.len() ==> s[index_of(s, c)] == c,
        forall|i: int| 0 <= i < index_of(s, c) ==> s[i] != c,
    decreases s.len(),
{
    if s.len() > 0 && s[0] != c {
        let t = s.drop_first();
        lemma_index_of(t, c);
        assert forall|i: int| 0 <= i < index_of(s, c) implies s[i] != c by {
            if i > 0 {
                assert(t[i - 1] == s[i]);
            }
        }
    }
}

/// `index_of_space` is the first position that holds white space.
pub proof fn lemma_index_of_space(s: Seq<char>)
    ensures
        0 <= index_of_space(s) <= s.len(),
        index_of_space(s) < s.len() ==> is_space(s[index_of_space(s)]),
        forall|i: int| 0 <= i < index_of_space(s) ==> !is_space(s[i]),
    decreases s.len(),
{
    if s.len() > 0 && !is_space(s[0]) {
        let t = s.drop_first();
        lemma_index_of_space(t);
        assert forall|i: int| 0 <= i < index_of_space(s) implies !is_space(s[i]) by {
            if i > 0 {
                assert(t[i - 1] == s[i]);
            }
        }
    }
}

/// Finds a character.
pub fn chars_index_of(s: &[char], c: char) -> (result: usize)
    ensures
        result == index_of(s@, c),
        result <= s@.len(),
{
    let mut i: usize = 0;
    assert(s@.skip(0) =~= s@);
    while i < s.len() && s[i] != c
        invariant
            i <= s@.len(),
            index_of(s@, c) == i + index_of(s@.skip(i as int), c),
        decreases s@.len() - i,
    {
        assert(s@.skip(i as int).drop_first() =~= s@.skip(i + 1));
        i += 1;
    }
    i
}

/// Finds white space.
pub fn chars_index_of_space(s: &[char]) -> (result: usize)
    ensures
        result == index_of_space(s@),
        result <= s@.len(),
{
    let mut i: usize = 0;
    assert(s@.skip(0) =~= s@);
    while i < s.len() && !char_is_space(s[i])
        invariant
            i <= s@.len(),
            index_of_space(s@) == i + index_of_space(s@.skip(i as int)),
        decreases s@.len() - i,
    {
        assert(s@.skip(i as int).drop_first() =~= s@.skip(i + 1));
        i += 1;
    }
    i
}

/// The parts before and after the first occurrence of a character.
pub open spec fn split_once(s: Seq<char>, c: char) -> Option<(Seq<char>, Seq<char>)> {
    let i = index_of(s, c);
    if i < s.len() {
        Some((s.take(i), s.skip(i + 1)))
    } else {
        None
    }
}

/// The views of an optional pair of slices.
pub open spec fn pair_view(pair: Option<(&[char], &[char])>) -> Option<(Seq<char>, Seq<char>)> {
    match pair {
        Some((left, right)) => Some((left@, right@)),
        None => None,
    }
}

/// Splits at the first occurrence of a character.
pub fn chars_split_once(s: &[char], c: char) -> (result: Option<(&[char], &[char])>)
    ensures
        pair_view(result) == split_once(s@, c),
{
    let i = chars_index_of(s, c);
    if i < s.len() {
        assert(s@.take(i as int) =~= s@.subrange(0, i as int));
        assert(s@.skip(i + 1) =~= s@.subrange(i + 1, s@.len() as int));
        Some((slice_subrange(s, 0, i), slice_subrange(s, i + 1, s.len())))
    } else {
        None
    }
}

/// The first word, and what follows it; nothing where there is no word.
pub open spec fn first_token(s: Seq<char>) -> Option<(Seq<char>, Seq<char>)> {
    let t = trim_start(s);
    if t.len() == 0 {
        None
    } else {
        let end = index_of_space(t);
        Some((t.take(end), t.skip(end)))
    }
}

/// Splits off the first word.
pub fn split_first_token(s: &[char]) -> (result: Option<(&[char], &[char])>)
    ensures
        pair_view(result) == first_token(s@),
{
    let t = chars_trim_start(s);
    if t.len() == 0 {
        return None;
    }
    let end = chars_index_of_space(t);
    assert(t@.take(end as int) =~= t@.subrange(0, end as int));
    assert(t@.skip(end as int) =~= t@.subrange(end as int, t@.len() as int));
    Some((slice_subrange(t, 0, end), slice_subrange(t, end, t.len())))
}

/// Whether `s` begins with `prefix`.
pub open spec fn starts_with(s: Seq<char>, prefix: Seq<char>) -> bool {
    prefix.len() <= s.len() && s.take(prefix.len() as int) == prefix
}

/// Whether `s` ends with `suffix`.
pub open spec fn ends_with(s: Seq<char>, suffix: Seq<char>) -> bool {
    suffix.len() <= s.len() && s.skip(s.len() - suffix.len()) == suffix
}

/// Whether the slice begins with the string.
pub fn chars_starts_with(s: &[char], prefix: &str) -> (result: bool)
    ensures
        result == starts_with(s@, prefix@),
{
    let prefix = chars_of(prefix);
    if prefix.len() > s.len() {
        return false;
    }
    assert(s@.take(prefix@.len() as int) =~= s@.subrange(0, prefix@.len() as int));
    chars_same(slice_subrange(s, 0, prefix.len()), prefix.as_slice())
}

/// Whether the slice ends with the string.
pub fn chars_ends_with(s: &[char], suffix: &str) -> (result: bool)
    ensures
        result == ends_with(s@, suffix@),
{
    let suffix = chars_of(suffix);
    if suffix.len() > s.len() {
        return false;
    }
    let start: usize = s.len() - suffix.len();
    assert(s@.skip(start as int) =~= s@.subrange(start as int, s@.len() as int));
    chars_same(slice_subrange(s, start, s.len()), suffix.as_slice())
}

/// The text after a prefix, where it begins with it.
pub open spec fn strip_prefix(s: Seq<char>, prefix: Seq<char>) -> Option<Seq<char>> {
    if starts_with(s, prefix) {
        Some(s.skip(prefix.len() as int))
    } else {
        None
    }
}

/// Strips a prefix.
pub fn chars_strip_prefix<'a>(s: &'a [char], prefix: &str) -> (result: Option<&'a [char]>)
    ensures
        slice_view(result) == strip_prefix(s@, prefix@),
{
    let prefix = chars_of(prefix);
    if prefix.len() > s.len() {
        return None;
    }
    let head = chars_take(s, prefix.len());
    if chars_same(head, prefix.as_slice()) {
        Some(chars_skip(s, prefix.len()))
    } else {
        None
    }
}

/// The text after its first character, where that is `c`.
pub open spec fn strip_first(s: Seq<char>, c: char) -> Option<Seq<char>> {
    if s.len() > 0 && s[0] == c {
        Some(s.drop_first())
    } else {
        None
    }
}

/// The text before its last character, where that is `c`.
pub open spec fn strip_last(s: Seq<char>, c: char) -> Option<Seq<char>> {
    if s.len() > 0 && s.last() == c {
        Some(s.drop_last())
    } else {
        None
    }
}

/// The view of an optional slice.
pub open spec fn slice_view(slice: Option<&[char]>) -> Option<Seq<char>> {
    match slice {
        Some(slice) => Some(slice@),
        None => None,
    }
}

/// Strips a leading character.
pub fn chars_strip_first(s: &[char], c: char) -> (result: Option<&[char]>)
    ensures
        slice_view(result) == strip_first(s@, c),
{
    if s.len() > 0 && s[0] == c {
        assert(s@.drop_first() =~= s@.subrange(1, s@.len() as int));
        Some(slice_subrange(s, 1, s.len()))
    } else {
        None
    }
}

/// Strips a trailing character.
pub fn chars_strip_last(s: &[char], c: char) -> (result: Option<&[char]>)
    ensures
        slice_view(result) == strip_last(s@, c),
{
    if s.len() > 0 && s[s.len() - 1] == c {
        assert(s@.drop_last() =~= s@.subrange(0, s@.len() - 1));
        Some(slice_subrange(s, 0, s.len() - 1))
    } else {
        None
    }
}

/// The part of a slice from an index on.
pub fn chars_skip(s: &[char], start: usize) -> (result: &[char])
    requires
        start <= s@.len(),
    ensures
        result@ == s@.skip(start as int),
{
    assert(s@.skip(start as int) =~= s@.subrange(start as int, s@.len() as int));
    slice_subrange(s, start, s.len())
}

/// The part of a slice before an index.
pub fn chars_take(s: &[char], end: usize) -> (result: &[char])
    requires
        end <= s@.len(),
    ensures
        result@ == s@.take(end as int),
{
    assert(s@.take(end as int) =~= s@.subrange(0, end as int));
    slice_subrange(s, 0, end)
}

/// Whether every character is a digit.
pub open spec fn all_digits(s: Seq<char>) -> bool {
    forall|i: int| 0 <= i < s.len() ==> is_digit(#[trigger] s[i])
}

/// Whether every character is a digit.
pub fn chars_all_digits(s: &[char]) -> (result: bool)
    ensures
        result == all_digits(s@),
{
    let mut i: usize = 0;
    while i < s.len()
        invariant
            i <= s@.len(),
            forall|j: int| 0 <= j < i ==> is_digit(#[trigger] s@[j]),
        decreases s@.len() - i,
    {
        if !char_is_digit(s[i]) {
            assert(!is_digit(s@[i as int]));
            return false;
        }
        i += 1;
    }
    true
}

/// What `char::is_alphanumeric` says of a character.
pub uninterp spec fn is_alphanumeric(c: char) -> bool;

/// `char::is_alphanumeric`: whether a character is a letter or a number in
/// Unicode, which depends on the character alone.
#[verifier::external_body]
pub(crate) fn char_is_alphanumeric(c: char) -> (result: bool)
    ensures
        result == is_alphanumeric(c),
{
    c.is_alphanumeric()
}

/// A character of an identifier-like name: a letter, a digit, `_`, `-` or `.`.
pub open spec fn is_name_char(c: char) -> bool {
    is_ascii_alnum(c) || c == '_' || c == '-' || c == '.'
}

/// Whether a character may stand in a name.
pub fn char_is_name_char(c: char) -> (result: bool)
    ensures
        result == is_name_char(c),
{
    char_is_ascii_alnum(c) || c == '_' || c == '-' || c == '.'
}

/// Whether every character may stand in a name.
pub open spec fn all_name_chars(s: Seq<char>) -> bool {
    forall|i: int| 0 <= i < s.len() ==> is_name_char(#[trigger] s[i])
}

/// Whether every character may stand in a name.
pub fn chars_all_name_chars(s: &[char]) -> (result: bool)
    ensures
        result == all_name_chars(s@),
{
    let mut i: usize = 0;
    while i < s.len()
        invariant
            i <= s@.len(),
            forall|j: int| 0 <= j < i ==> is_name_char(#[trigger] s@[j]),
        decreases s@.len() - i,
    {
        if !char_is_name_char(s[i]) {
            assert(!is_name_char(s@[i as int]));
            return false;
        }
        i += 1;
    }
    true
}

// ---------------------------------------------------------------------------
// ASCII case
// ---------------------------------------------------------------------------

/// Whether two texts are equal up to ASCII case.
pub open spec fn eq_ignore_case(a: Seq<char>, b: Seq<char>) -> bool {
    a.len() == b.len() && forall|i: int| 0 <= i < a.len() ==> lower(#[trigger] a[i]) == lower(b[i])
}

/// Whether a slice equals a string up to ASCII case.
pub fn chars_eq_ignore_case(a: &[char], b: &str) -> (result: bool)
    ensures
        result == eq_ignore_case(a@, b@),
{
    let b = chars_of(b);
    chars_same_ignore_case(a, b.as_slice())
}

/// Whether two slices are equal up to ASCII case.
pub fn chars_same_ignore_case(a: &[char], b: &[char]) -> (result: bool)
    ensures
        result == eq_ignore_case(a@, b@),
{
    if a.len() != b.len() {
        return false;
    }
    let mut i: usize = 0;
    while i < a.len()
        invariant
            i <= a@.len(),
            a@.len() == b@.len(),
            forall|j: int| 0 <= j < i ==> lower(#[trigger] a@[j]) == lower(b@[j]),
        decreases a@.len() - i,
    {
        if char_lower(a[i]) != char_lower(b[i]) {
            assert(lower(a@[i as int]) != lower(b@[i as int]));
            return false;
        }
        i += 1;
    }
    true
}

/// Whether some part of `hay` equals `needle` up to ASCII case.
pub open spec fn contains_ignore_case(hay: Seq<char>, needle: Seq<char>) -> bool {
    exists|i: int|
        0 <= i <= hay.len() - needle.len() && #[trigger] eq_ignore_case(
            hay.subrange(i, i + needle.len()),
            needle,
        )
}

/// Whether a slice contains another one up to ASCII case.
pub fn chars_contains_ignore_case(hay: &[char], needle: &[char]) -> (result: bool)
    ensures
        result == contains_ignore_case(hay@, needle@),
{
    let width: usize = needle.len();
    let total: usize = hay.len();
    if width > total {
        return false;
    }
    let last: usize = total - width;
    let mut i: usize = 0;
    while i <= last
        invariant
            width == needle@.len(),
            total == hay@.len(),
            last == total - width,
            i <= last,
            forall|j: int|
                0 <= j < i ==> !#[trigger] eq_ignore_case(
                    hay@.subrange(j, j + needle@.len()),
                    needle@,
                ),
        decreases last + 1 - i,
    {
        if chars_same_ignore_case(slice_subrange(hay, i, i + width), needle) {
            return true;
        }
        if i == last {
            return false;
        }
        i += 1;
    }
    false
}


/// Whether a text holds another one.
pub open spec fn contains(hay: Seq<char>, needle: Seq<char>) -> bool {
    exists|i: int|
        0 <= i <= hay.len() - needle.len() && #[trigger] hay.subrange(i, i + needle.len())
            == needle
}

/// Whether a slice holds another one.
pub fn chars_contains(hay: &[char], needle: &[char]) -> (result: bool)
    ensures
        result == contains(hay@, needle@),
{
    let width: usize = needle.len();
    let total: usize = hay.len();
    if width > total {
        return false;
    }
    let last: usize = total - width;
    let mut i: usize = 0;
    while i <= last
        invariant
            width == needle@.len(),
            total == hay@.len(),
            last == total - width,
            i <= last,
            forall|j: int|
                0 <= j < i ==> #[trigger] hay@.subrange(j, j + needle@.len()) != needle@,
        decreases last + 1 - i,
    {
        if chars_same(slice_subrange(hay, i, i + width), needle) {
            return true;
        }
        if i == last {
            return false;
        }
        i += 1;
    }
    false
}

// ---------------------------------------------------------------------------
// Building
// ---------------------------------------------------------------------------

/// Appends the characters of a slice.
pub fn push_chars(out: &mut Vec<char>, tail: &[char])
    ensures
        final(out)@ == old(out)@ + tail@,
{
    let mut i: usize = 0;
    assert(old(out)@ + tail@.take(0) =~= old(out)@);
    while i < tail.len()
        invariant
            i <= tail@.len(),
            out@ == old(out)@ + tail@.take(i as int),
        decreases tail@.len() - i,
    {
        out.push(tail[i]);
        i += 1;
        assert(tail@.take(i as int) =~= tail@.take(i - 1).push(tail@[i - 1]));
        assert(out@ =~= old(out)@ + tail@.take(i as int));
    }
    assert(tail@.take(tail@.len() as int) =~= tail@);
}

/// Appends the characters of a string.
pub fn push_str(out: &mut Vec<char>, tail: &str)
    ensures
        final(out)@ == old(out)@ + tail@,
{
    let chars = chars_of(tail);
    push_chars(out, chars.as_slice());
}

/// Two strings, one after the other.
pub fn concat(left: &str, right: &str) -> (result: String)
    ensures
        result@ == left@ + right@,
{
    let mut out = chars_of(left);
    push_str(&mut out, right);
    string_of(out.as_slice())
}

/// Three strings, one after the other.
pub fn concat3(first: &str, second: &str, third: &str) -> (result: String)
    ensures
        result@ == first@ + second@ + third@,
{
    let mut out = chars_of(first);
    push_str(&mut out, second);
    push_str(&mut out, third);
    string_of(out.as_slice())
}

/// An optional string equal to the given one.
pub fn copy_opt(text: &Option<String>) -> (result: Option<String>)
    ensures
        result == *text,
{
    match text {
        Some(text) => Some(text.clone()),
        None => None,
    }
}

/// Strings equal to the given ones.
pub fn copy_strings(items: &Vec<String>) -> (result: Vec<String>)
    ensures
        result@ == items@,
{
    let mut result: Vec<String> = Vec::new();
    let mut i: usize = 0;
    while i < items.len()
        invariant
            i <= items@.len(),
            result@ == items@.take(i as int),
        decreases items@.len() - i,
    {
        result.push(items[i].clone());
        i += 1;
        assert(items@.take(i as int) =~= items@.take(i - 1).push(items@[i - 1]));
    }
    assert(items@.take(items@.len() as int) =~= items@);
    result
}

/// Whether an optional string holds the given text.
pub fn opt_is(item: &Option<String>, text: &str) -> (result: bool)
    ensures
        result == (opt_view(*item) == Some(text@)),
{
    match item {
        Some(item) => same(item.as_str(), text),
        None => false,
    }
}

/// Whether two optional strings hold the same text.
pub fn opt_same(left: &Option<String>, right: &Option<String>) -> (result: bool)
    ensures
        result == (opt_view(*left) == opt_view(*right)),
{
    match (left, right) {
        (Some(left), Some(right)) => same(left.as_str(), right.as_str()),
        (None, None) => true,
        _ => false,
    }
}

} // verus!
