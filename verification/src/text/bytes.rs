//! The size of text in UTF-8.
use crate::text;
use vstd::prelude::*;

verus! {

/// The number of bytes of a text in UTF-8.
pub open spec fn byte_len(s: Seq<char>) -> nat {
    vstd::utf8::encode_utf8(s).len()
}

/// The number of bytes of a character in UTF-8.
pub open spec fn width(c: char) -> nat {
    if c <= '\u{7f}' {
        1
    } else if c <= '\u{7ff}' {
        2
    } else if c <= '\u{ffff}' {
        3
    } else {
        4
    }
}

/// The size of a text is the sum of the sizes of its characters.
pub proof fn lemma_byte_len_push(s: Seq<char>, c: char)
    ensures
        byte_len(s.push(c)) == byte_len(s) + width(c),
    decreases s.len(),
{
    reveal_with_fuel(vstd::utf8::encode_utf8, 2);
    if s.len() == 0 {
        assert(s.push(c).drop_first() =~= Seq::<char>::empty());
    } else {
        assert(s.push(c).drop_first() =~= s.drop_first().push(c));
        lemma_byte_len_push(s.drop_first(), c);
    }
}

/// Appending adds up sizes.
pub proof fn lemma_byte_len_add(s: Seq<char>, t: Seq<char>)
    ensures
        byte_len(s + t) == byte_len(s) + byte_len(t),
    decreases t.len(),
{
    if t.len() == 0 {
        assert(s + t =~= s);
    } else {
        lemma_byte_len_add(s, t.drop_last());
        lemma_byte_len_push(t.drop_last(), t.last());
        lemma_byte_len_push(s + t.drop_last(), t.last());
        assert(t.drop_last().push(t.last()) =~= t);
        assert((s + t.drop_last()).push(t.last()) =~= s + t);
    }
}

/// A text has at least as many bytes as characters.
pub proof fn lemma_byte_len_bounds(s: Seq<char>)
    ensures
        s.len() <= byte_len(s) <= 4 * s.len(),
    decreases s.len(),
{
    if s.len() > 0 {
        lemma_byte_len_bounds(s.drop_last());
        lemma_byte_len_push(s.drop_last(), s.last());
        assert(s.drop_last().push(s.last()) =~= s);
    }
}

/// The number of bytes of a string.
pub fn str_len(s: &str) -> (result: usize)
    ensures
        result == byte_len(s@),
{
    let bytes = s.as_bytes();
    bytes.len()
}

/// The number of bytes of a character.
pub fn char_width(c: char) -> (result: usize)
    ensures
        result == width(c),
        1 <= result <= 4,
{
    if c <= '\u{7f}' {
        1
    } else if c <= '\u{7ff}' {
        2
    } else if c <= '\u{ffff}' {
        3
    } else {
        4
    }
}

/// The number of leading characters that fit in `max` bytes.
pub open spec fn fit(s: Seq<char>, max: nat) -> nat
    decreases s.len(),
{
    if byte_len(s) <= max || s.len() == 0 {
        s.len()
    } else {
        fit(s.drop_last(), max)
    }
}

/// The longest beginning of a text that fits in `max` bytes.
pub open spec fn truncate(s: Seq<char>, max: nat) -> Seq<char> {
    s.take(fit(s, max) as int)
}

/// `fit` is the largest number of characters that fit.
pub proof fn lemma_fit(s: Seq<char>, max: nat, n: int)
    requires
        0 <= n <= s.len(),
        byte_len(s.take(n)) <= max,
        n == s.len() || byte_len(s.take(n + 1)) > max,
    ensures
        fit(s, max) == n,
    decreases s.len(),
{
    if n == s.len() {
        assert(s.take(n) =~= s);
    } else {
        lemma_byte_len_take_mono(s, n + 1, s.len() as int);
        assert(s.take(s.len() as int) =~= s);
        assert(s.drop_last().take(n) =~= s.take(n));
        if n < s.len() - 1 {
            assert(s.drop_last().take(n + 1) =~= s.take(n + 1));
        }
        lemma_fit(s.drop_last(), max, n);
    }
}

/// A longer beginning has at least as many bytes.
pub proof fn lemma_byte_len_take_mono(s: Seq<char>, m: int, n: int)
    requires
        0 <= m <= n <= s.len(),
    ensures
        byte_len(s.take(m)) <= byte_len(s.take(n)),
{
    lemma_byte_len_add(s.take(m), s.subrange(m, n));
    assert(s.take(m) + s.subrange(m, n) =~= s.take(n));
}

/// Cuts a text to the longest beginning that fits in `max` bytes.
pub fn truncate_chars(s: &[char], max: usize) -> (result: &[char])
    requires
        max < usize::MAX - 4,
    ensures
        result@ == truncate(s@, max as nat),
        byte_len(result@) <= max,
{
    let mut used: usize = 0;
    let mut i: usize = 0;
    assert(s@.take(0) =~= Seq::<char>::empty());
    while i < s.len()
        invariant
            i <= s@.len(),
            max < usize::MAX - 4,
            used <= max,
            used == byte_len(s@.take(i as int)),
        decreases s@.len() - i,
    {
        let next: usize = used + char_width(s[i]);
        proof {
            lemma_byte_len_push(s@.take(i as int), s@[i as int]);
            assert(s@.take(i as int).push(s@[i as int]) =~= s@.take(i + 1));
        }
        if next > max {
            proof {
                lemma_fit(s@, max as nat, i as int);
            }
            return text::chars_take(s, i);
        }
        used = next;
        i += 1;
    }
    proof {
        lemma_fit(s@, max as nat, i as int);
    }
    text::chars_take(s, i)
}

} // verus!
