//! What the functions on text are for.
use crate::text::{self, number, order, split};
use vstd::prelude::*;

verus! {

/// Whether a text begins and ends with something that is no white space.
pub open spec fn is_tight(s: Seq<char>) -> bool {
    s.len() > 0 && !text::is_space(s[0]) && !text::is_space(s.last())
}

/// Whether a text is white space and nothing else.
pub open spec fn is_blank(s: Seq<char>) -> bool {
    forall|i: int| 0 <= i < s.len() ==> text::is_space(#[trigger] s[i])
}

/// Whether a text has no white space in it.
pub open spec fn is_word(s: Seq<char>) -> bool {
    s.len() > 0 && forall|i: int| 0 <= i < s.len() ==> !text::is_space(#[trigger] s[i])
}

/// Blanks, tabs and line ends are white space; what can be seen of ASCII is not.
pub proof fn law_blanks_are_white_space(c: char)
    ensures
        c == ' ' || c == '\t' || c == '\n' || c == '\r' ==> text::is_space(c),
        '!' <= c <= '~' ==> !text::is_space(c),
        c == '\u{a0}' || c == '\u{2003}' || c == '\u{3000}' ==> text::is_space(c),
{
}

/// Digits and letters are told apart, and control codes from what is shown.
pub proof fn law_characters_are_told_apart(c: char)
    ensures
        text::is_digit(c) == ('0' as u32 <= c as u32 <= '9' as u32),
        text::is_ascii_alnum(c) == (text::is_digit(c) || 'a' <= c <= 'z' || 'A' <= c <= 'Z'),
        text::is_name_char(c) == (text::is_ascii_alnum(c) || c == '_' || c == '-' || c == '.'),
        ' ' <= c <= '~' ==> !text::is_control(c),
        c < ' ' || c == '\u{7f}' || '\u{80}' <= c <= '\u{9f}' ==> text::is_control(c),
        '\u{a0}' <= c ==> !text::is_control(c),
{
}

/// Case is that of the letters of ASCII: a capital is taken for its small letter,
/// and nothing else for anything but itself.
pub proof fn law_case_is_that_of_letters(c: char)
    ensures
        'A' <= c <= 'Z' ==> text::lower(c) as u32 - 'a' as u32 == c as u32 - 'A' as u32,
        !('A' <= c <= 'Z') ==> text::lower(c) == c,
{
}

/// A text is the same as another up to case where it has the same letters in the
/// same places, each small or capital, and the same of everything else.
pub proof fn law_same_up_to_case(a: Seq<char>, b: Seq<char>)
    ensures
        text::eq_ignore_case(a, b) == (a.len() == b.len() && forall|i: int|
            0 <= i < a.len() ==> (#[trigger] a[i] == b[i] || ('a' <= b[i] <= 'z' && a[i] as u32 + 32
                == b[i] as u32) || ('a' <= a[i] <= 'z' && b[i] as u32 + 32 == a[i] as u32))),
{
    let alike = forall|i: int|
        0 <= i < a.len() ==> (#[trigger] a[i] == b[i] || ('a' <= b[i] <= 'z' && a[i] as u32 + 32
            == b[i] as u32) || ('a' <= a[i] <= 'z' && b[i] as u32 + 32 == a[i] as u32));
    if a.len() == b.len() {
        if text::eq_ignore_case(a, b) {
            assert forall|i: int| 0 <= i < a.len() implies (#[trigger] a[i] == b[i] || ('a' <= b[i]
                <= 'z' && a[i] as u32 + 32 == b[i] as u32) || ('a' <= a[i] <= 'z' && b[i] as u32
                + 32 == a[i] as u32)) by {
                assert(text::lower(a[i]) == text::lower(b[i]));
                law_case_is_that_of_letters(a[i]);
                law_case_is_that_of_letters(b[i]);
            }
        }
        if alike {
            assert forall|i: int| 0 <= i < a.len() implies text::lower(#[trigger] a[i])
                == text::lower(b[i]) by {
                law_case_is_that_of_letters(a[i]);
                law_case_is_that_of_letters(b[i]);
            }
        }
    }
}

/// A text holds every part of itself, in whatever case the part is written.
pub proof fn law_parts_are_held(
    before: Seq<char>,
    part: Seq<char>,
    after: Seq<char>,
    needle: Seq<char>,
)
    requires
        text::eq_ignore_case(part, needle),
    ensures
        text::contains_ignore_case(before + part + after, needle),
        part == needle ==> text::contains(before + part + after, needle),
{
    let hay = before + part + after;
    let i = before.len() as int;
    assert(hay.subrange(i, i + needle.len()) =~= part);
}

/// What is held stands somewhere: character by character, up to case.
pub proof fn law_held_text_stands_somewhere(hay: Seq<char>, needle: Seq<char>) -> (i: int)
    requires
        text::contains_ignore_case(hay, needle) || text::contains(hay, needle),
    ensures
        0 <= i <= hay.len() - needle.len(),
        forall|k: int|
            0 <= k < needle.len() ==> text::lower(#[trigger] hay[i + k]) == text::lower(needle[k]),
        text::contains(hay, needle) ==> forall|k: int|
            0 <= k < needle.len() ==> #[trigger] hay[i + k] == needle[k],
{
    if text::contains(hay, needle) {
        let i = choose|i: int|
            0 <= i <= hay.len() - needle.len() && #[trigger] hay.subrange(i, i + needle.len())
                == needle;
        assert forall|k: int| 0 <= k < needle.len() implies #[trigger] hay[i + k] == needle[k] by {
            assert(hay.subrange(i, i + needle.len())[k] == hay[i + k]);
        }
        i
    } else {
        let i = choose|i: int|
            0 <= i <= hay.len() - needle.len() && #[trigger] text::eq_ignore_case(
                hay.subrange(i, i + needle.len()),
                needle,
            );
        let part = hay.subrange(i, i + needle.len());
        assert forall|k: int| 0 <= k < needle.len() implies text::lower(#[trigger] hay[i + k])
            == text::lower(needle[k]) by {
            assert(part[k] == hay[i + k]);
            assert(text::lower(part[k]) == text::lower(needle[k]));
        }
        i
    }
}

/// Trimming takes the white space round a text away, and nothing of the text.
pub proof fn law_trimming_keeps_the_text(before: Seq<char>, s: Seq<char>, after: Seq<char>)
    requires
        is_blank(before),
        is_blank(after),
        s.len() == 0 || is_tight(s),
    ensures
        text::trim(before + s + after) == s,
        s.len() > 0 ==> text::trim_start(before + s + after) == s + after,
        s.len() > 0 ==> text::trim_end(before + s + after) == before + s,
        s.len() > 0 ==> text::trim(s) == s && text::trim_start(s) == s && text::trim_end(s) == s,
{
    if s.len() > 0 {
        lemma_trim_start(before, s + after);
        lemma_trim_end(s, after);
        lemma_trim_end(before + s, after);
        assert(before + (s + after) =~= before + s + after);
        assert(text::trim_start(s) == s);
        assert(text::trim_end(s) == s);
    } else {
        let all = before + s + after;
        lemma_trim_start_blank(all);
        assert(text::trim_start(all) =~= s);
    }
}

/// What stands before a blank beginning is not taken away with it.
pub proof fn lemma_trim_start(before: Seq<char>, s: Seq<char>)
    requires
        is_blank(before),
        s.len() == 0 || !text::is_space(s[0]),
    ensures
        text::trim_start(before + s) == s,
    decreases before.len(),
{
    let all = before + s;
    if before.len() > 0 {
        assert(all[0] == before[0]);
        assert(all.drop_first() =~= before.drop_first() + s);
        assert forall|i: int| 0 <= i < before.drop_first().len() implies text::is_space(
            #[trigger] before.drop_first()[i],
        ) by {
            assert(before.drop_first()[i] == before[i + 1]);
        }
        lemma_trim_start(before.drop_first(), s);
    } else {
        assert(all =~= s);
    }
}

pub proof fn lemma_trim_end(s: Seq<char>, after: Seq<char>)
    requires
        is_blank(after),
        s.len() == 0 || !text::is_space(s.last()),
    ensures
        text::trim_end(s + after) == s,
    decreases after.len(),
{
    let all = s + after;
    if after.len() > 0 {
        assert(all.last() == after[after.len() - 1]);
        assert(all.drop_last() =~= s + after.drop_last());
        lemma_trim_end(s, after.drop_last());
    } else {
        assert(all =~= s);
    }
}

proof fn lemma_trim_start_blank(s: Seq<char>)
    requires
        is_blank(s),
    ensures
        text::trim_start(s).len() == 0,
    decreases s.len(),
{
    if s.len() > 0 {
        assert(text::is_space(s[0]));
        assert forall|i: int| 0 <= i < s.drop_first().len() implies text::is_space(
            #[trigger] s.drop_first()[i],
        ) by {
            assert(s.drop_first()[i] == s[i + 1]);
        }
        lemma_trim_start_blank(s.drop_first());
    }
}

/// A text is split at the first place where the mark stands, and the mark stands
/// in neither part where it was there once.
pub proof fn law_split_at_the_first_mark(head: Seq<char>, tail: Seq<char>, mark: char)
    requires
        !head.contains(mark),
    ensures
        text::split_once(head + seq![mark] + tail, mark) == Some((head, tail)),
        text::split_once(head, mark) is None,
{
    let s = head + seq![mark] + tail;
    text::lemma_index_of(s, mark);
    text::lemma_index_of(head, mark);
    let i = text::index_of(s, mark);
    if i < head.len() {
        assert(s[i] == head[i]);
    }
    if i > head.len() {
        assert(s[head.len() as int] == mark);
    }
    assert(s.take(i) =~= head);
    assert(s.skip(i + 1) =~= tail);
}

/// The first word of a text ends where white space begins.
pub proof fn law_first_word_ends_at_white_space(before: Seq<char>, word: Seq<char>, rest: Seq<char>)
    requires
        is_blank(before),
        is_word(word),
        rest.len() == 0 || text::is_space(rest[0]),
    ensures
        text::first_token(before + word + rest) == Some((word, rest)),
        text::index_of_space(word + rest) == word.len(),
{
    let s = word + rest;
    assert(s[0] == word[0]);
    lemma_trim_start(before, s);
    assert(before + s =~= before + word + rest);
    text::lemma_index_of_space(s);
    let i = text::index_of_space(s);
    if i < word.len() {
        assert(s[i] == word[i]);
    }
    if i > word.len() {
        assert(s[word.len() as int] == rest[0]);
    }
    assert(s.take(i) =~= word);
    assert(s.skip(i) =~= rest);
}

/// The words of a text are what stands between white space.
pub proof fn law_words_stand_between_white_space(
    before: Seq<char>,
    word: Seq<char>,
    rest: Seq<char>,
)
    requires
        is_blank(before),
        is_word(word),
        rest.len() == 0 || text::is_space(rest[0]),
    ensures
        split::words(before + word + rest) == seq![word] + split::words(rest),
        split::words(before).len() == 0,
{
    law_first_word_ends_at_white_space(before, word, rest);
    split::lemma_words_step(before + word + rest);
    lemma_trim_start_blank(before);
}

/// A line ends at its line feed, and a carriage return before it is no part of
/// the line.
pub proof fn law_lines_end_at_line_feeds(line: Seq<char>, rest: Seq<char>)
    requires
        !line.contains('\n'),
        line.len() == 0 || line.last() != '\r',
    ensures
        split::lines(line + seq!['\n'] + rest) == seq![line] + split::lines(rest),
        split::lines(line + seq!['\r'] + seq!['\n'] + rest) == seq![line] + split::lines(rest),
        line.len() > 0 ==> split::lines(line) == seq![line],
{
    law_split_at_the_first_mark(line, rest, '\n');
    let wide = line + seq!['\r'];
    assert(!wide.contains('\n')) by {
        if wide.contains('\n') {
            let i = choose|i: int| 0 <= i < wide.len() && wide[i] == '\n';
            assert(line[i] == '\n');
        }
    }
    law_split_at_the_first_mark(wide, rest, '\n');
    assert(wide.drop_last() =~= line);
}

/// Parts that are joined have the separator between them, and nowhere else.
pub proof fn law_joining_separates(parts: Seq<Seq<char>>, part: Seq<char>, separator: Seq<char>)
    ensures
        parts.len() > 0 ==> split::join(parts.push(part), separator) == split::join(
            parts,
            separator,
        ) + separator + part,
        split::join(seq![part], separator) == part,
        split::join(Seq::empty(), separator).len() == 0,
{
    assert(parts.push(part).drop_last() =~= parts);
}

/// The fields of a text are what stands between its marks.
pub proof fn law_fields_stand_between_marks(head: Seq<char>, tail: Seq<char>, mark: char)
    requires
        !head.contains(mark),
    ensures
        split::fields(head + seq![mark] + tail, mark) == seq![head] + split::fields(tail, mark),
        split::fields(head, mark) == seq![head],
{
    law_split_at_the_first_mark(head, tail, mark);
}

/// What a text begins with can be taken off, and nothing else.
pub proof fn law_beginnings_are_taken_off(prefix: Seq<char>, rest: Seq<char>, s: Seq<char>)
    ensures
        text::strip_prefix(prefix + rest, prefix) == Some(rest),
        text::ends_with(rest + prefix, prefix),
        text::strip_prefix(s, prefix) matches Some(after) ==> s == prefix + after,
        text::ends_with(s, prefix) ==> s.take(s.len() - prefix.len()) + prefix == s,
{
    assert((prefix + rest).take(prefix.len() as int) =~= prefix);
    assert((prefix + rest).skip(prefix.len() as int) =~= rest);
    assert((rest + prefix).skip(rest.len() as int) =~= prefix);
    if text::starts_with(s, prefix) {
        assert(s.take(prefix.len() as int) + s.skip(prefix.len() as int) =~= s);
    }
    if text::ends_with(s, prefix) {
        assert(s.take(s.len() - prefix.len()) + s.skip(s.len() - prefix.len()) =~= s);
    }
}

/// The value that decimal digits have.
pub open spec fn digits_value(s: Seq<char>) -> int
    decreases s.len(),
{
    if s.len() == 0 {
        0
    } else {
        10 * digits_value(s.drop_last()) + (s.last() as int - '0' as int)
    }
}

/// A number that is written has its value: its digits read back, and it begins
/// with a zero only where it is zero.
pub proof fn law_written_number_reads_back(n: nat)
    ensures
        digits_value(number::decimal(n)) == n,
        forall|i: int|
            0 <= i < number::decimal(n).len() ==> '0' <= #[trigger] number::decimal(n)[i] <= '9',
        number::decimal(n).len() > 0,
        n > 0 ==> number::decimal(n)[0] != '0',
    decreases n,
{
    let s = number::decimal(n);
    if n < 10 {
        assert(s.drop_last() =~= Seq::<char>::empty());
        assert(digits_value(s.drop_last()) == 0);
    } else {
        law_written_number_reads_back(n / 10);
        let front = number::decimal(n / 10);
        assert(s.drop_last() =~= front);
        assert forall|i: int| 0 <= i < s.len() implies '0' <= #[trigger] s[i] <= '9' by {
            if i < front.len() {
                assert(s[i] == front[i]);
            }
        }
        assert(s[0] == front[0]);
    }
}

/// Texts are in the order of their first different characters, and a beginning
/// comes before what it begins.
pub proof fn law_texts_are_ordered(common: Seq<char>, a: Seq<char>, b: Seq<char>)
    requires
        a.len() > 0,
        b.len() > 0,
        a[0] < b[0],
    ensures
        order::before(common + a, common + b),
        !order::before(common + b, common + a),
        order::before(common, common + a),
    decreases common.len(),
{
    if common.len() > 0 {
        law_texts_are_ordered(common.drop_first(), a, b);
        assert((common + a).drop_first() =~= common.drop_first() + a);
        assert((common + b).drop_first() =~= common.drop_first() + b);
        assert((common + a)[0] == common[0]);
        assert((common + b)[0] == common[0]);
    } else {
        assert(common + a =~= a);
        assert(common + b =~= b);
    }
}

/// Line ends after a text are taken off, and so are other marks that are asked for,
/// but nothing before them.
pub proof fn law_ends_are_taken_off(s: Seq<char>, ends: Seq<char>, marks: Seq<char>, mark: char)
    requires
        s.len() > 0,
        forall|i: int| 0 <= i < ends.len() ==> #[trigger] ends[i] == '\r' || ends[i] == '\n',
        forall|i: int| 0 <= i < marks.len() ==> #[trigger] marks[i] == mark,
    ensures
        s.last() != '\r' && s.last() != '\n' ==> text::trim_end_newlines(s + ends) == s,
        s.last() != mark ==> text::trim_end_char(s + marks, mark) == s,
    decreases ends.len() + marks.len(),
{
    if ends.len() > 0 {
        assert((s + ends).last() == ends[ends.len() - 1]);
        assert((s + ends).drop_last() =~= s + ends.drop_last());
        law_ends_are_taken_off(s, ends.drop_last(), marks, mark);
    } else {
        assert(s + ends =~= s);
    }
    if marks.len() > 0 {
        assert((s + marks).last() == marks[marks.len() - 1]);
        assert((s + marks).drop_last() =~= s + marks.drop_last());
        law_ends_are_taken_off(s, ends, marks.drop_last(), mark);
    } else {
        assert(s + marks =~= s);
    }
}

} // verus!
