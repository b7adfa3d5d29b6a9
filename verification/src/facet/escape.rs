//! Facet values as text on one line.
use crate::text;
use crate::text::{char_is_control, chars_of, string_of};
use vstd::prelude::*;

verus! {

/// A digit of a number below sixteen.
pub open spec fn hex_digit(n: int) -> char {
    if n < 10 {
        (n + 48) as char
    } else {
        (n + 55) as char
    }
}

/// How a character is written: a backslash, a tab and line ends by two
/// characters, other control codes by their number.
pub open spec fn escaped(c: char) -> Seq<char> {
    if c == '\\' {
        seq!['\\', '\\']
    } else if c == '\t' {
        seq!['\\', 't']
    } else if c == '\n' {
        seq!['\\', 'n']
    } else if c == '\r' {
        seq!['\\', 'r']
    } else if text::is_control(c) {
        seq!['\\', 'u', '{', '0', '0', hex_digit(c as int / 16), hex_digit(c as int % 16), '}']
    } else {
        seq![c]
    }
}

/// How a text is written on one line.
pub open spec fn escape(s: Seq<char>) -> Seq<char>
    decreases s.len(),
{
    if s.len() == 0 {
        s
    } else {
        escaped(s[0]) + escape(s.drop_first())
    }
}

fn hex_char(n: u32) -> (result: char)
    requires
        n < 16,
    ensures
        result == hex_digit(n as int),
{
    let code: u8 = if n < 10 {
        n as u8 + 48
    } else {
        n as u8 + 55
    };
    code as char
}

fn push_escaped(out: &mut Vec<char>, c: char)
    ensures
        final(out)@ == old(out)@ + escaped(c),
{
    if c == '\\' {
        out.push('\\');
        out.push('\\');
    } else if c == '\t' {
        out.push('\\');
        out.push('t');
    } else if c == '\n' {
        out.push('\\');
        out.push('n');
    } else if c == '\r' {
        out.push('\\');
        out.push('r');
    } else if char_is_control(c) {
        let code: u32 = c as u32;
        out.push('\\');
        out.push('u');
        out.push('{');
        out.push('0');
        out.push('0');
        out.push(hex_char(code / 16));
        out.push(hex_char(code % 16));
        out.push('}');
    } else {
        out.push(c);
    }
    assert(out@ =~= old(out)@ + escaped(c));
}

/// Writes a text on one line.
pub fn escape_facet_text(input: &str) -> (result: String)
    ensures
        result@ == escape(input@),
{
    let chars = chars_of(input);
    let mut out: Vec<char> = Vec::new();
    let mut i: usize = 0;
    assert(chars@.skip(0) =~= chars@);
    while i < chars.len()
        invariant
            i <= chars@.len(),
            chars@ == input@,
            escape(chars@) == out@ + escape(chars@.skip(i as int)),
        decreases chars@.len() - i,
    {
        let ghost rest = chars@.skip(i as int);
        assert(rest.drop_first() =~= chars@.skip(i + 1));
        let ghost before = out@;
        push_escaped(&mut out, chars[i]);
        assert(before + (escaped(rest[0]) + escape(chars@.skip(i + 1))) =~= out@ + escape(
            chars@.skip(i + 1),
        ));
        i += 1;
    }
    assert(out@ + Seq::<char>::empty() =~= out@);
    string_of(out.as_slice())
}

proof fn lemma_escaped_heads(a: char, b: char, x: Seq<char>, y: Seq<char>)
    requires
        escaped(a) + x == escaped(b) + y,
    ensures
        a == b,
        x == y,
{
    let left = escaped(a) + x;
    let right = escaped(b) + y;
    assert(left[0] == escaped(a)[0]);
    assert(right[0] == escaped(b)[0]);
    if escaped(a).len() > 1 {
        assert(left[1] == escaped(a)[1]);
    }
    if escaped(b).len() > 1 {
        assert(right[1] == escaped(b)[1]);
    }
    if escaped(a).len() == 8 {
        assert(left[5] == escaped(a)[5]);
        assert(left[6] == escaped(a)[6]);
    }
    if escaped(b).len() == 8 {
        assert(right[5] == escaped(b)[5]);
        assert(right[6] == escaped(b)[6]);
    }
    if escaped(a).len() == 8 && escaped(b).len() == 8 {
        let (m, n) = (a as int, b as int);
        assert(hex_digit(m / 16) == hex_digit(n / 16));
        assert(hex_digit(m % 16) == hex_digit(n % 16));
        assert(m / 16 == n / 16);
        assert(m % 16 == n % 16);
        assert(m == n);
    }
    assert(a == b);
    let n = escaped(a).len() as int;
    assert(x =~= left.skip(n));
    assert(y =~= right.skip(n));
}

/// Different texts are written differently: what is shown tells an escape that
/// stands in a value from one that was made.
pub proof fn law_escaping_is_injective(a: Seq<char>, b: Seq<char>)
    requires
        escape(a) == escape(b),
    ensures
        a == b,
    decreases a.len(),
{
    if a.len() == 0 {
        if b.len() > 0 {
            assert((escaped(b[0]) + escape(b.drop_first())).len() > 0);
        }
        assert(a =~= b);
    } else if b.len() == 0 {
        assert((escaped(a[0]) + escape(a.drop_first())).len() > 0);
    } else {
        lemma_escaped_heads(a[0], b[0], escape(a.drop_first()), escape(b.drop_first()));
        law_escaping_is_injective(a.drop_first(), b.drop_first());
        assert(a =~= seq![a[0]] + a.drop_first());
        assert(b =~= seq![b[0]] + b.drop_first());
    }
}

proof fn lemma_escaped_char(c: char)
    ensures
        crate::model::clean::free_of_controls(escaped(c)),
{
    let n = c as int;
    if text::is_control(c) {
        assert(0 <= n / 16 < 16 && 0 <= n % 16 < 16);
    }
}

/// Written text holds no control code.
pub proof fn law_escaped_text_has_no_controls(s: Seq<char>)
    ensures
        crate::model::clean::free_of_controls(escape(s)),
    decreases s.len(),
{
    if s.len() > 0 {
        let head = escaped(s[0]);
        let tail = escape(s.drop_first());
        law_escaped_text_has_no_controls(s.drop_first());
        lemma_escaped_char(s[0]);
        assert forall|i: int| 0 <= i < escape(s).len() implies !text::is_control(
            #[trigger] escape(s)[i],
        ) by {
            if i < head.len() {
                assert(escape(s)[i] == head[i]);
            } else {
                assert(escape(s)[i] == tail[i - head.len()]);
            }
        }
    }
}

} // verus!
