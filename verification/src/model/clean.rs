//! Making log text fit to be shown: terminal escapes and control codes go.
use crate::text;
use crate::text::{char_is_control, chars_of, string_of};
use vstd::prelude::*;

verus! {

/// What follows a control sequence, after its `[`: it ends with a character
/// from `@` to `~`.
pub open spec fn after_control_sequence(s: Seq<char>) -> Seq<char>
    decreases s.len(),
{
    if s.len() == 0 {
        s
    } else if '\u{40}' <= s[0] <= '\u{7e}' {
        s.drop_first()
    } else {
        after_control_sequence(s.drop_first())
    }
}

/// What follows an operating system command, after its `]`: it ends with a
/// bell or with an escape and a backslash.
pub open spec fn after_command(s: Seq<char>) -> Seq<char>
    decreases s.len(),
{
    if s.len() == 0 {
        s
    } else if s[0] == '\u{7}' {
        s.drop_first()
    } else if s[0] == '\u{1b}' && s.len() > 1 && s[1] == '\\' {
        s.skip(2)
    } else {
        after_command(s.drop_first())
    }
}

/// What follows an escape sequence, after the escape character.
pub open spec fn after_escape(s: Seq<char>) -> Seq<char> {
    if s.len() == 0 {
        s
    } else if s[0] == '[' {
        after_control_sequence(s.drop_first())
    } else if s[0] == ']' {
        after_command(s.drop_first())
    } else {
        s.drop_first()
    }
}

proof fn lemma_after_escape_shrinks(s: Seq<char>)
    ensures
        after_control_sequence(s).len() <= s.len(),
        after_command(s).len() <= s.len(),
        after_escape(s).len() <= s.len(),
    decreases s.len(),
{
    if s.len() > 0 {
        lemma_after_escape_shrinks(s.drop_first());
    }
}

/// The text without its terminal escape sequences.
pub open spec fn without_escapes(s: Seq<char>) -> Seq<char>
    decreases s.len(),
{
    if s.len() == 0 {
        s
    } else if s[0] != '\u{1b}' {
        seq![s[0]] + without_escapes(s.drop_first())
    } else {
        let rest = after_escape(s.drop_first());
        if rest.len() < s.len() {
            without_escapes(rest)
        } else {
            Seq::empty()
        }
    }
}

/// The text with tabs as spaces and without its other control codes.
pub open spec fn without_controls(s: Seq<char>) -> Seq<char>
    decreases s.len(),
{
    if s.len() == 0 {
        s
    } else if s.last() == '\t' {
        without_controls(s.drop_last()).push(' ')
    } else if text::is_control(s.last()) {
        without_controls(s.drop_last())
    } else {
        without_controls(s.drop_last()).push(s.last())
    }
}

/// The text as it is shown.
pub open spec fn clean(s: Seq<char>) -> Seq<char> {
    without_controls(without_escapes(s))
}

/// Skips a control sequence from an index on.
fn skip_control_sequence(s: &[char], start: usize) -> (end: usize)
    requires
        start <= s@.len(),
    ensures
        start <= end <= s@.len(),
        s@.skip(end as int) == after_control_sequence(s@.skip(start as int)),
{
    let mut i: usize = start;
    while i < s.len()
        invariant
            start <= i <= s@.len(),
            after_control_sequence(s@.skip(start as int)) == after_control_sequence(
                s@.skip(i as int),
            ),
        decreases s@.len() - i,
    {
        assert(s@.skip(i as int).drop_first() =~= s@.skip(i + 1));
        if '\u{40}' <= s[i] && s[i] <= '\u{7e}' {
            return i + 1;
        }
        i += 1;
    }
    i
}

/// Skips an operating system command from an index on.
fn skip_command(s: &[char], start: usize) -> (end: usize)
    requires
        start <= s@.len(),
    ensures
        start <= end <= s@.len(),
        s@.skip(end as int) == after_command(s@.skip(start as int)),
{
    let mut i: usize = start;
    while i < s.len()
        invariant
            start <= i <= s@.len(),
            after_command(s@.skip(start as int)) == after_command(s@.skip(i as int)),
        decreases s@.len() - i,
    {
        assert(s@.skip(i as int).drop_first() =~= s@.skip(i + 1));
        if s[i] == '\u{7}' {
            return i + 1;
        }
        if s[i] == '\u{1b}' && s.len() - i > 1 && s[i + 1] == '\\' {
            assert(s@.skip(i as int).skip(2) =~= s@.skip(i + 2));
            return i + 2;
        }
        i += 1;
    }
    i
}

/// Drops terminal escape sequences.
pub fn strip_ansi_escapes(s: &[char]) -> (result: Vec<char>)
    ensures
        result@ == without_escapes(s@),
{
    let mut output: Vec<char> = Vec::new();
    let mut i: usize = 0;
    assert(s@.skip(0) =~= s@);
    while i < s.len()
        invariant
            i <= s@.len(),
            without_escapes(s@) == output@ + without_escapes(s@.skip(i as int)),
        decreases s@.len() - i,
    {
        let ghost rest = s@.skip(i as int);
        assert(rest.drop_first() =~= s@.skip(i + 1));
        if s[i] != '\u{1b}' {
            let ghost before = output@;
            output.push(s[i]);
            assert(before + (seq![rest[0]] + without_escapes(s@.skip(i + 1))) =~= output@
                + without_escapes(s@.skip(i + 1)));
            i += 1;
            continue ;
        }
        proof {
            lemma_after_escape_shrinks(rest.drop_first());
        }
        i += 1;
        if i < s.len() {
            let ghost escaped = s@.skip(i as int);
            assert(escaped.drop_first() =~= s@.skip(i + 1));
            if s[i] == '[' {
                i = skip_control_sequence(s, i + 1);
            } else if s[i] == ']' {
                i = skip_command(s, i + 1);
            } else {
                i += 1;
            }
            assert(s@.skip(i as int) == after_escape(escaped));
        }
    }
    assert(s@.skip(i as int) =~= Seq::<char>::empty());
    assert(output@ + Seq::<char>::empty() =~= output@);
    output
}

/// Turns tabs into spaces and drops other control codes.
pub fn strip_control_chars(s: &[char]) -> (result: Vec<char>)
    ensures
        result@ == without_controls(s@),
{
    let mut output: Vec<char> = Vec::new();
    let mut i: usize = 0;
    assert(s@.take(0) =~= Seq::<char>::empty());
    while i < s.len()
        invariant
            i <= s@.len(),
            output@ == without_controls(s@.take(i as int)),
        decreases s@.len() - i,
    {
        if s[i] == '\t' {
            output.push(' ');
        } else if !char_is_control(s[i]) {
            output.push(s[i]);
        }
        i += 1;
        assert(s@.take(i as int).drop_last() =~= s@.take(i - 1));
    }
    assert(s@.take(i as int) =~= s@);
    output
}

/// Makes text fit to be shown.
pub fn clean_display_text(input: &str) -> (result: String)
    ensures
        result@ == clean(input@),
{
    string_of(clean_chars(input).as_slice())
}

/// Makes text fit to be shown, as characters.
pub fn clean_chars(input: &str) -> (result: Vec<char>)
    ensures
        result@ == clean(input@),
{
    let chars = chars_of(input);
    let plain = strip_ansi_escapes(chars.as_slice());
    strip_control_chars(plain.as_slice())
}

/// Whether a text holds no control code.
pub open spec fn free_of_controls(s: Seq<char>) -> bool {
    forall|i: int| 0 <= i < s.len() ==> !text::is_control(#[trigger] s[i])
}

/// Clean text holds no control code, so nothing in it can drive a terminal.
pub proof fn law_clean_text_has_no_controls(s: Seq<char>)
    ensures
        free_of_controls(clean(s)),
{
    lemma_without_controls(without_escapes(s));
}

proof fn lemma_without_controls(s: Seq<char>)
    ensures
        free_of_controls(without_controls(s)),
    decreases s.len(),
{
    if s.len() > 0 {
        lemma_without_controls(s.drop_last());
    }
}

/// Cleaning leaves clean text as it is.
pub proof fn law_cleaning_is_idempotent(s: Seq<char>)
    ensures
        clean(clean(s)) == clean(s),
{
    law_clean_text_has_no_controls(s);
    lemma_clean_keeps(clean(s));
}

/// Cleaning keeps text that holds no control code.
pub proof fn lemma_clean_keeps(s: Seq<char>)
    requires
        free_of_controls(s),
    ensures
        clean(s) == s,
{
    lemma_without_escapes_keeps(s);
    lemma_without_controls_keeps(s);
}

proof fn lemma_without_escapes_keeps(s: Seq<char>)
    requires
        free_of_controls(s),
    ensures
        without_escapes(s) == s,
    decreases s.len(),
{
    if s.len() > 0 {
        assert(!text::is_control(s[0]));
        let rest = s.drop_first();
        assert forall|i: int| 0 <= i < rest.len() implies !text::is_control(#[trigger] rest[i]) by {
            assert(rest[i] == s[i + 1]);
        }
        lemma_without_escapes_keeps(rest);
        assert(seq![s[0]] + rest =~= s);
    }
}

proof fn lemma_without_controls_keeps(s: Seq<char>)
    requires
        free_of_controls(s),
    ensures
        without_controls(s) == s,
    decreases s.len(),
{
    if s.len() > 0 {
        assert(!text::is_control(s.last()));
        lemma_without_controls_keeps(s.drop_last());
        assert(s.drop_last().push(s.last()) =~= s);
    }
}

} // verus!
