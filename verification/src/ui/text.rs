//! Text that fits its place.
use crate::text;
use crate::text::split::{chars_words, join_chars};
use crate::text::{chars_of, copy_str, string_of};
use vstd::prelude::*;

verus! {

/// The words of a text with single spaces between them.
pub open spec fn compact(s: Seq<char>) -> Seq<char> {
    text::split::join(text::split::words(s), " "@)
}

/// A text cut to a number of characters, with a mark in place of the last one
/// where it was cut.
pub open spec fn cut(s: Seq<char>, max: int) -> Seq<char> {
    if s.len() <= max {
        s
    } else if max <= 0 {
        Seq::empty()
    } else {
        s.take(max - 1).push('~')
    }
}

/// Puts single spaces between the words of a text.
pub fn compact_whitespace(value: &str) -> (result: String)
    ensures
        result@ == compact(value@),
{
    let chars = chars_of(value);
    let words = chars_words(chars.as_slice());
    string_of(join_chars(words.as_slice(), " ").as_slice())
}

/// Cuts a text to a number of characters.
pub fn truncate_tail(value: &str, max: usize) -> (result: String)
    ensures
        result@ == cut(value@, max as int),
{
    let chars = chars_of(value);
    if chars.len() <= max {
        return copy_str(value);
    }
    if max == 0 {
        return String::new();
    }
    let mut out = string_of(text::chars_take(chars.as_slice(), max - 1));
    out.push('~');
    out
}

/// A cut text is never too long, and short text is not cut.
pub proof fn law_cut_text_fits(s: Seq<char>, max: int)
    requires
        max >= 0,
    ensures
        cut(s, max).len() <= max,
        s.len() <= max ==> cut(s, max) == s,
        s.len() > max && max > 0 ==> cut(s, max).len() == max && cut(s, max).last() == '~',
{
}

/// So many spaces.
pub open spec fn spaces(count: int) -> Seq<char> {
    Seq::new(
        if count > 0 {
            count as nat
        } else {
            0
        },
        |i: int| ' ',
    )
}

/// A text with spaces after it, up to some length.
pub open spec fn padded_right(s: Seq<char>, width: int) -> Seq<char> {
    s + spaces(width - s.len())
}

/// A text with spaces before it, up to some length.
pub open spec fn padded_left(s: Seq<char>, width: int) -> Seq<char> {
    spaces(width - s.len()) + s
}

/// Appends so many spaces.
pub fn push_spaces(out: &mut Vec<char>, count: usize)
    ensures
        final(out)@ == old(out)@ + spaces(count as int),
{
    let ghost before = out@;
    let mut i: usize = 0;
    assert(before + spaces(0) =~= before);
    while i < count
        invariant
            i <= count,
            out@ == before + spaces(i as int),
        decreases count - i,
    {
        out.push(' ');
        assert(before + spaces(i + 1) =~= (before + spaces(i as int)).push(' '));
        i += 1;
    }
}

/// So many spaces.
pub fn blank(count: usize) -> (result: String)
    ensures
        result@ == spaces(count as int),
{
    let mut out: Vec<char> = Vec::new();
    push_spaces(&mut out, count);
    assert(out@ =~= spaces(count as int));
    string_of(out.as_slice())
}

/// A text with spaces after it, up to some length.
pub fn pad_right(value: &str, width: usize) -> (result: String)
    ensures
        result@ == padded_right(value@, width as int),
{
    let mut out = chars_of(value);
    let length: usize = out.len();
    if length < width {
        push_spaces(&mut out, width - length);
    } else {
        assert(out@ + spaces(width - length) =~= out@);
    }
    string_of(out.as_slice())
}

/// A text with spaces before it, up to some length.
pub fn pad_left(value: &str, width: usize) -> (result: String)
    ensures
        result@ == padded_left(value@, width as int),
{
    let chars = chars_of(value);
    let mut out: Vec<char> = Vec::new();
    if chars.len() < width {
        push_spaces(&mut out, width - chars.len());
    }
    assert(out@ =~= spaces(width - chars@.len()));
    text::push_chars(&mut out, chars.as_slice());
    string_of(out.as_slice())
}

/// A text cut or padded to exactly some length.
pub open spec fn cell(s: Seq<char>, width: int) -> Seq<char> {
    padded_right(cut(s, width), width)
}

/// Cuts or pads a text to exactly some length.
pub fn padded_cell(value: &str, width: usize) -> (result: String)
    ensures
        result@ == cell(value@, width as int),
{
    pad_right(truncate_tail(value, width).as_str(), width)
}

/// A cell is exactly as long as its column is wide.
pub proof fn law_cell_fills_column(s: Seq<char>, width: int)
    requires
        width >= 0,
    ensures
        cell(s, width).len() == width,
{
}

} // verus!
