//! Splitting text into words, lines and fields, and joining it again.
use crate::text;
use crate::text::push_chars;
use vstd::prelude::*;

verus! {

/// The words of a text: its maximal parts without white space.
pub open spec fn words(s: Seq<char>) -> Seq<Seq<char>>
    decreases s.len(),
{
    let t = text::trim_start(s);
    let end = text::index_of_space(t);
    if t.len() == 0 || t.len() > s.len() || end <= 0 || end > t.len() {
        Seq::empty()
    } else {
        seq![t.take(end)] + words(t.skip(end))
    }
}

/// The first word of a text is where `first_token` puts it.
pub proof fn lemma_words_step(s: Seq<char>)
    ensures
        match text::first_token(s) {
            Some((word, rest)) => words(s) == seq![word] + words(rest) && rest.len() < s.len()
                && word.len() > 0,
            None => words(s) == Seq::<Seq<char>>::empty(),
        },
{
    let t = text::trim_start(s);
    text::lemma_trim_bounds(s);
    if t.len() > 0 {
        text::lemma_index_of_space(t);
        lemma_trim_start_head(s);
    }
}

/// What remains after trimming does not begin with white space.
pub proof fn lemma_trim_start_head(s: Seq<char>)
    ensures
        text::trim_start(s).len() > 0 ==> !text::is_space(text::trim_start(s)[0]),
    decreases s.len(),
{
    if s.len() > 0 && text::is_space(s[0]) {
        lemma_trim_start_head(s.drop_first());
    }
}

/// The views of a list of slices.
pub open spec fn slice_views(items: Seq<&[char]>) -> Seq<Seq<char>> {
    Seq::new(items.len(), |i: int| items[i]@)
}

/// Splits a text into its words.
pub fn chars_words(s: &[char]) -> (result: Vec<&[char]>)
    ensures
        slice_views(result@) == words(s@),
{
    let mut result: Vec<&[char]> = Vec::new();
    let mut rest: &[char] = s;
    loop
        invariant
            words(s@) == slice_views(result@) + words(rest@),
        decreases rest@.len(),
    {
        proof {
            lemma_words_step(rest@);
        }
        match text::split_first_token(rest) {
            Some((word, tail)) => {
                let ghost before = result@;
                result.push(word);
                assert(slice_views(result@) =~= slice_views(before).push(word@));
                assert(slice_views(before) + (seq![word@] + words(tail@)) =~= slice_views(result@)
                    + words(tail@));
                rest = tail;
            },
            None => {
                assert(slice_views(result@) + Seq::<Seq<char>>::empty() =~= slice_views(result@));
                return result;
            },
        }
    }
}

/// The fields of a text between the occurrences of a character.
pub open spec fn fields(s: Seq<char>, c: char) -> Seq<Seq<char>>
    decreases s.len(),
{
    match text::split_once(s, c) {
        Some((head, tail)) => if tail.len() < s.len() {
            seq![head] + fields(tail, c)
        } else {
            seq![s]
        },
        None => seq![s],
    }
}

/// Splits a text at every occurrence of a character.
pub fn chars_fields(s: &[char], c: char) -> (result: Vec<&[char]>)
    ensures
        slice_views(result@) == fields(s@, c),
        result@.len() > 0,
{
    let mut result: Vec<&[char]> = Vec::new();
    let mut rest: &[char] = s;
    loop
        invariant
            fields(s@, c) == slice_views(result@) + fields(rest@, c),
        decreases rest@.len(),
    {
        let ghost before = result@;
        proof {
            text::lemma_index_of(rest@, c);
        }
        match text::chars_split_once(rest, c) {
            Some((head, tail)) => {
                result.push(head);
                assert(slice_views(result@) =~= slice_views(before).push(head@));
                assert(slice_views(before) + (seq![head@] + fields(tail@, c)) =~= slice_views(
                    result@,
                ) + fields(tail@, c));
                rest = tail;
            },
            None => {
                result.push(rest);
                assert(slice_views(result@) =~= slice_views(before).push(rest@));
                assert(slice_views(before) + seq![rest@] =~= slice_views(result@));
                return result;
            },
        }
    }
}

/// A line without the carriage return before its line feed.
pub open spec fn drop_carriage_return(s: Seq<char>) -> Seq<char> {
    match text::strip_last(s, '\r') {
        Some(line) => line,
        None => s,
    }
}

/// The lines of a text. Each ends with a line feed or a carriage return and a
/// line feed; what follows the last line feed is a line unless it is empty.
pub open spec fn lines(s: Seq<char>) -> Seq<Seq<char>>
    decreases s.len(),
{
    if s.len() == 0 {
        Seq::empty()
    } else {
        match text::split_once(s, '\n') {
            Some((line, rest)) => if rest.len() < s.len() {
                seq![drop_carriage_return(line)] + lines(rest)
            } else {
                seq![s]
            },
            None => seq![s],
        }
    }
}

/// Splits a text into its lines.
pub fn chars_lines(s: &[char]) -> (result: Vec<&[char]>)
    ensures
        slice_views(result@) == lines(s@),
{
    let mut result: Vec<&[char]> = Vec::new();
    let mut rest: &[char] = s;
    while rest.len() > 0
        invariant
            lines(s@) == slice_views(result@) + lines(rest@),
        decreases rest@.len(),
    {
        let ghost before = result@;
        proof {
            text::lemma_index_of(rest@, '\n');
        }
        match text::chars_split_once(rest, '\n') {
            Some((line, tail)) => {
                let line = match text::chars_strip_last(line, '\r') {
                    Some(stripped) => stripped,
                    None => line,
                };
                result.push(line);
                assert(slice_views(result@) =~= slice_views(before).push(line@));
                assert(slice_views(before) + (seq![line@] + lines(tail@)) =~= slice_views(result@)
                    + lines(tail@));
                rest = tail;
            },
            None => {
                result.push(rest);
                assert(slice_views(result@) =~= slice_views(before).push(rest@));
                assert(slice_views(before) + seq![rest@] =~= slice_views(result@));
                return result;
            },
        }
    }
    assert(slice_views(result@) + Seq::<Seq<char>>::empty() =~= slice_views(result@));
    result
}

/// The texts, one after the other, with a separator between them.
pub open spec fn join(parts: Seq<Seq<char>>, separator: Seq<char>) -> Seq<char>
    decreases parts.len(),
{
    if parts.len() == 0 {
        Seq::empty()
    } else if parts.len() == 1 {
        parts[0]
    } else {
        join(parts.drop_last(), separator) + separator + parts.last()
    }
}

/// Joins some slices.
pub fn join_chars(parts: &[&[char]], separator: &str) -> (result: Vec<char>)
    ensures
        result@ == join(slice_views(parts@), separator@),
{
    let mut out: Vec<char> = Vec::new();
    let mut i: usize = 0;
    let ghost all = slice_views(parts@);
    while i < parts.len()
        invariant
            i <= parts@.len(),
            all == slice_views(parts@),
            out@ == join(all.take(i as int), separator@),
        decreases parts@.len() - i,
    {
        if i > 0 {
            text::push_str(&mut out, separator);
        }
        push_chars(&mut out, parts[i]);
        i += 1;
        assert(all.take(i as int).drop_last() =~= all.take(i - 1));
        assert(all.take(i as int).last() == parts@[i - 1]@);
        assert(Seq::<char>::empty() + parts@[i - 1]@ =~= parts@[i - 1]@);
    }
    assert(all.take(all.len() as int) =~= all);
    out
}

/// Joins some strings.
pub fn join_strings(parts: &Vec<String>, separator: &str) -> (result: String)
    ensures
        result@ == join(text::views(parts@), separator@),
{
    let mut out: Vec<char> = Vec::new();
    let mut i: usize = 0;
    let ghost all = text::views(parts@);
    while i < parts.len()
        invariant
            i <= parts@.len(),
            all == text::views(parts@),
            out@ == join(all.take(i as int), separator@),
        decreases parts@.len() - i,
    {
        if i > 0 {
            text::push_str(&mut out, separator);
        }
        text::push_str(&mut out, parts[i].as_str());
        i += 1;
        assert(all.take(i as int).drop_last() =~= all.take(i - 1));
        assert(all.take(i as int).last() == parts@[i - 1]@);
        assert(Seq::<char>::empty() + parts@[i - 1]@ =~= parts@[i - 1]@);
    }
    assert(all.take(all.len() as int) =~= all);
    text::string_of(out.as_slice())
}

} // verus!
