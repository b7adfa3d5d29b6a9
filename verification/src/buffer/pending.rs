//! Blocks of properties that follow an event over several lines.
use crate::model::interpret::LogInterpreter;
use crate::model::{source, structured};
use crate::model::{HeaderView, PropertyBlockHeader};
use crate::text;
use crate::text::bytes::str_len;
use crate::text::{
    char_is_digit, char_is_space, chars_all_name_chars, chars_are, chars_ends_with, chars_of,
    chars_split_once, chars_starts_with, chars_trim, chars_trim_end_char,
};
use vstd::prelude::*;

verus! {

broadcast use text::lemma_views_push;

/// The number of bytes that a block may hold.
pub const MAX_BLOCK_BYTES: usize = 262144;

/// The number of lines that a block may hold.
pub const MAX_BLOCK_LINES: usize = 1024;

// ---------------------------------------------------------------------------
// Continuation lines
// ---------------------------------------------------------------------------

/// Whether a text begins with one of the characters that open a value.
pub open spec fn opens_value(s: Seq<char>) -> bool {
    s.len() > 0 && (s[0] == '"' || s[0] == '\'' || s[0] == '{' || s[0] == '[' || s[0] == '-'
        || text::is_digit(s[0]))
}

/// Whether a text can be the key of a property: quoted, or a name.
pub open spec fn is_block_key(s: Seq<char>) -> bool {
    if s.len() == 0 {
        false
    } else if (s[0] == '"' && s.last() == '"') || (s[0] == '\'' && s.last() == '\'') {
        s.len() > 2
    } else {
        text::all_name_chars(s)
    }
}

/// Whether a text looks like an entry `key: value`.
pub open spec fn is_block_entry(s: Seq<char>) -> bool {
    match text::split_once(s, ':') {
        None => false,
        Some((key, rest)) => {
            let value = text::trim(text::trim_end_char(text::trim(rest), ','));
            is_block_key(text::trim(key)) && (opens_value(value) || value == "true"@ || value
                == "false"@ || value == "null"@)
        },
    }
}

/// Whether a text begins with the name of an error and a colon.
pub open spec fn is_error_head(s: Seq<char>) -> bool {
    match text::split_once(s, ':') {
        None => false,
        Some((head, _)) => text::ends_with(head, "Error"@) || text::ends_with(head, "Exception"@),
    }
}

/// Whether a message goes on with what the one before it began.
pub open spec fn is_continuation(message: Seq<char>) -> bool {
    let t = text::trim(message);
    ||| t.len() == 0
    ||| message.len() > 0 && text::is_space(message[0])
    ||| text::starts_with(t, "at "@)
    ||| text::starts_with(t, "Caused by:"@)
    ||| text::starts_with(t, "Suppressed:"@)
    ||| text::starts_with(t, "..."@)
    ||| is_error_head(t)
    ||| t[0] == '{' || t[0] == '}' || t[0] == '[' || t[0] == ']' || t[0] == ',' || t[0] == ')'
    ||| is_block_entry(t)
}

fn looks_like_error_continuation(trimmed: &[char]) -> (result: bool)
    ensures
        result == is_error_head(trimmed@),
{
    match chars_split_once(trimmed, ':') {
        None => false,
        Some((head, _)) => chars_ends_with(head, "Error") || chars_ends_with(head, "Exception"),
    }
}

fn looks_like_property_key(key: &[char]) -> (result: bool)
    ensures
        result == is_block_key(key@),
{
    if key.len() == 0 {
        return false;
    }
    let first = key[0];
    let last = key[key.len() - 1];
    if (first == '"' && last == '"') || (first == '\'' && last == '\'') {
        return key.len() > 2;
    }
    chars_all_name_chars(key)
}

fn looks_like_property_entry(trimmed: &[char]) -> (result: bool)
    ensures
        result == is_block_entry(trimmed@),
{
    match chars_split_once(trimmed, ':') {
        None => false,
        Some((key, rest)) => {
            if !looks_like_property_key(chars_trim(key)) {
                return false;
            }
            let value = chars_trim(chars_trim_end_char(chars_trim(rest), ','));
            (value.len() > 0 && (value[0] == '"' || value[0] == '\'' || value[0] == '{' || value[0]
                == '[' || value[0] == '-' || char_is_digit(value[0]))) || chars_are(value, "true")
                || chars_are(value, "false") || chars_are(value, "null")
        },
    }
}

fn looks_like_structured_continuation(trimmed: &[char]) -> (result: bool)
    requires
        trimmed@.len() > 0,
    ensures
        result == ({
            let t = trimmed@;
            t[0] == '{' || t[0] == '}' || t[0] == '[' || t[0] == ']' || t[0] == ',' || t[0] == ')'
                || is_block_entry(t)
        }),
{
    let first = trimmed[0];
    first == '{' || first == '}' || first == '[' || first == ']' || first == ',' || first == ')'
        || looks_like_property_entry(trimmed)
}

/// Whether a message goes on with what the one before it began.
pub fn is_continuation_line(message: &str) -> (result: bool)
    ensures
        result == is_continuation(message@),
{
    let chars = chars_of(message);
    let trimmed = chars_trim(chars.as_slice());
    if trimmed.len() == 0 {
        return true;
    }
    if chars.len() > 0 && char_is_space(chars[0]) {
        return true;
    }
    chars_starts_with(trimmed, "at ") || chars_starts_with(trimmed, "Caused by:")
        || chars_starts_with(trimmed, "Suppressed:") || chars_starts_with(trimmed, "...")
        || looks_like_error_continuation(trimmed) || looks_like_structured_continuation(trimmed)
}

// ---------------------------------------------------------------------------
// Braces
// ---------------------------------------------------------------------------

/// The quotation state after one character: the open mark, and whether the
/// next character is escaped.
pub open spec fn quote_step(c: char, quote: Option<char>, escaped: bool) -> (Option<char>, bool) {
    match quote {
        Some(mark) => if escaped {
            (quote, false)
        } else if c == '\\' {
            (quote, true)
        } else if c == mark {
            (None, escaped)
        } else {
            (quote, false)
        },
        None => if c == '"' || c == '\'' {
            (Some(c), escaped)
        } else {
            (None, escaped)
        },
    }
}

/// How many more braces a text opens than it closes, outside quotation marks.
pub open spec fn brace_balance(s: Seq<char>, quote: Option<char>, escaped: bool) -> int
    decreases s.len(),
{
    if s.len() == 0 {
        0
    } else {
        let (next_quote, next_escaped) = quote_step(s[0], quote, escaped);
        brace_balance(s.drop_first(), next_quote, next_escaped) + if quote is Some {
            0int
        } else if s[0] == '{' {
            1int
        } else if s[0] == '}' {
            -1int
        } else {
            0int
        }
    }
}

/// Whether a text opens a brace outside quotation marks.
pub open spec fn opens_brace(s: Seq<char>, quote: Option<char>, escaped: bool) -> bool
    decreases s.len(),
{
    if s.len() == 0 {
        false
    } else {
        let (next_quote, next_escaped) = quote_step(s[0], quote, escaped);
        quote is None && s[0] == '{' || opens_brace(s.drop_first(), next_quote, next_escaped)
    }
}

// ---------------------------------------------------------------------------
// Blocks
// ---------------------------------------------------------------------------

/// A block that has not ended yet.
#[derive(Debug)]
pub struct PendingPropertyBlock {
    pub target_sequence: u64,
    pub deferred_header: Option<PropertyBlockHeader>,
    pub lines: Vec<String>,
    pub bytes: usize,
    pub brace_depth: i32,
    pub saw_open: bool,
}

/// What a pending block is.
pub struct PendingView {
    pub target: u64,
    pub header: Option<HeaderView>,
    pub lines: Seq<Seq<char>>,
    pub bytes: int,
    pub depth: int,
    pub open: bool,
}

impl View for PendingPropertyBlock {
    type V = PendingView;

    open spec fn view(&self) -> PendingView {
        PendingView {
            target: self.target_sequence,
            header: text::opt_view(self.deferred_header),
            lines: text::views(self.lines@),
            bytes: self.bytes as int,
            depth: self.brace_depth as int,
            open: self.saw_open,
        }
    }
}

impl PendingView {
    /// The block for an event, before its first line.
    pub open spec fn start(target: u64, header: Option<HeaderView>) -> PendingView {
        PendingView { target, header, lines: Seq::empty(), bytes: 0, depth: 0, open: false }
    }

    /// The bounds that every block keeps.
    pub open spec fn bounded(self) -> bool {
        &&& self.lines.len() <= MAX_BLOCK_LINES
        &&& 0 <= self.bytes <= MAX_BLOCK_BYTES
        &&& -self.bytes <= self.depth <= self.bytes
    }

    /// Whether a line belongs to the block.
    pub open spec fn takes(self, line: Seq<char>) -> bool {
        let message = source::source_message(line).1;
        let t = text::trim(message);
        &&& self.lines.len() < MAX_BLOCK_LINES
        &&& self.bytes + text::bytes::byte_len(line) <= MAX_BLOCK_BYTES
        &&& structured::block_header(line) is None
        &&& if self.open {
            is_continuation(message)
        } else {
            t.len() == 0 || t[0] == '{'
        }
    }

    /// The block with another line.
    pub open spec fn with_line(self, line: Seq<char>) -> PendingView {
        let message = source::source_message(line).1;
        PendingView {
            lines: self.lines.push(message),
            bytes: self.bytes + text::bytes::byte_len(message),
            depth: self.depth + brace_balance(message, None, false),
            open: self.open || opens_brace(message, None, false),
            ..self
        }
    }

    /// Whether every brace of the block is closed.
    pub open spec fn complete(self) -> bool {
        self.open && self.depth <= 0
    }
}

proof fn lemma_suffix_bytes(s: Seq<char>, n: int)
    requires
        0 <= n <= s.len(),
    ensures
        text::bytes::byte_len(s.skip(n)) <= text::bytes::byte_len(s),
        text::bytes::byte_len(s.take(n)) <= text::bytes::byte_len(s),
{
    text::bytes::lemma_byte_len_add(s.take(n), s.skip(n));
    assert(s.take(n) + s.skip(n) =~= s);
}

proof fn lemma_clean_bytes(s: Seq<char>)
    ensures
        text::bytes::byte_len(crate::model::clean::after_control_sequence(s))
            <= text::bytes::byte_len(s),
        text::bytes::byte_len(crate::model::clean::after_command(s)) <= text::bytes::byte_len(s),
        text::bytes::byte_len(crate::model::clean::after_escape(s)) <= text::bytes::byte_len(s),
    decreases s.len(),
{
    if s.len() > 0 {
        assert(s.drop_first() =~= s.skip(1));
        lemma_suffix_bytes(s, 1);
        lemma_clean_bytes(s.drop_first());
        if s.len() > 1 {
            lemma_suffix_bytes(s, 2);
        }
    }
}

proof fn lemma_without_escapes_bytes(s: Seq<char>)
    ensures
        text::bytes::byte_len(crate::model::clean::without_escapes(s)) <= text::bytes::byte_len(s),
    decreases s.len(),
{
    reveal_with_fuel(vstd::utf8::encode_utf8, 1);
    if s.len() > 0 {
        let rest = s.drop_first();
        assert(rest =~= s.skip(1));
        lemma_suffix_bytes(s, 1);
        if s[0] != '\u{1b}' {
            lemma_without_escapes_bytes(rest);
            text::bytes::lemma_byte_len_add(
                seq![s[0]],
                crate::model::clean::without_escapes(rest),
            );
            text::bytes::lemma_byte_len_add(seq![s[0]], rest);
            assert(seq![s[0]] + rest =~= s);
        } else {
            let after = crate::model::clean::after_escape(rest);
            lemma_clean_bytes(rest);
            if after.len() < s.len() {
                lemma_without_escapes_bytes(after);
            }
        }
    }
}

proof fn lemma_without_controls_bytes(s: Seq<char>)
    ensures
        text::bytes::byte_len(crate::model::clean::without_controls(s)) <= text::bytes::byte_len(s),
    decreases s.len(),
{
    if s.len() > 0 {
        let front = s.drop_last();
        lemma_without_controls_bytes(front);
        assert(front.push(s.last()) =~= s);
        text::bytes::lemma_byte_len_push(front, s.last());
        let kept = crate::model::clean::without_controls(front);
        text::bytes::lemma_byte_len_push(kept, s.last());
        text::bytes::lemma_byte_len_push(kept, ' ');
    }
}

proof fn lemma_trim_start_bytes(s: Seq<char>)
    ensures
        text::bytes::byte_len(text::trim_start(s)) <= text::bytes::byte_len(s),
    decreases s.len(),
{
    if s.len() > 0 && text::is_space(s[0]) {
        assert(s.drop_first() =~= s.skip(1));
        lemma_suffix_bytes(s, 1);
        lemma_trim_start_bytes(s.drop_first());
    }
}

/// The message of a line is no longer than the line.
pub proof fn lemma_message_bytes(line: Seq<char>)
    ensures
        text::bytes::byte_len(source::source_message(line).1) <= text::bytes::byte_len(line),
{
    lemma_without_escapes_bytes(line);
    lemma_without_controls_bytes(crate::model::clean::without_escapes(line));
    let shown = crate::model::clean::clean(line);
    text::lemma_index_of(shown, '|');
    if text::index_of(shown, '|') < shown.len() {
        let tail = shown.skip(text::index_of(shown, '|') + 1);
        lemma_suffix_bytes(shown, text::index_of(shown, '|') + 1);
        lemma_trim_start_bytes(tail);
    }
    if shown.len() > 0 {
        let rest = shown.drop_first();
        assert(rest =~= shown.skip(1));
        lemma_suffix_bytes(shown, 1);
        text::lemma_index_of(rest, ']');
        if text::index_of(rest, ']') < rest.len() {
            lemma_suffix_bytes(rest, text::index_of(rest, ']') + 1);
            lemma_trim_start_bytes(rest.skip(text::index_of(rest, ']') + 1));
        }
    }
}

proof fn lemma_brace_balance(s: Seq<char>, quote: Option<char>, escaped: bool)
    ensures
        -s.len() <= brace_balance(s, quote, escaped) <= s.len(),
    decreases s.len(),
{
    if s.len() > 0 {
        let (next_quote, next_escaped) = quote_step(s[0], quote, escaped);
        lemma_brace_balance(s.drop_first(), next_quote, next_escaped);
    }
}

/// Taking a line that belongs to it keeps a block within its bounds.
pub proof fn law_block_stays_bounded(block: PendingView, line: Seq<char>)
    requires
        block.bounded(),
        block.takes(line),
    ensures
        block.with_line(line).bounded(),
{
    let message = source::source_message(line).1;
    lemma_message_bytes(line);
    lemma_brace_balance(message, None, false);
    text::bytes::lemma_byte_len_bounds(message);
}

impl PendingPropertyBlock {
    /// The block for an event, before its first line.
    pub fn new(target_sequence: u64, deferred_header: Option<PropertyBlockHeader>) -> (result: Self)
        ensures
            result@ == PendingView::start(target_sequence, text::opt_view(deferred_header)),
    {
        let lines: Vec<String> = Vec::new();
        assert(text::views(lines@) =~= Seq::<Seq<char>>::empty());
        PendingPropertyBlock {
            target_sequence,
            deferred_header,
            lines,
            bytes: 0,
            brace_depth: 0,
            saw_open: false,
        }
    }

    /// Adds a line, where it belongs to the block.
    pub fn push_line(&mut self, line: &str) -> (result: bool)
        requires
            old(self)@.bounded(),
        ensures
            result == old(self)@.takes(line@),
            final(self)@ == if result {
                old(self)@.with_line(line@)
            } else {
                old(self)@
            },
            final(self)@.bounded(),
    {
        if self.lines.len() >= MAX_BLOCK_LINES || self.bytes.saturating_add(str_len(line))
            > MAX_BLOCK_BYTES {
            return false;
        }
        // A new log header terminates a malformed, unclosed object.
        if LogInterpreter.property_block_header(line).is_some() {
            return false;
        }
        let message = LogInterpreter.message_without_source_prefix(line);
        let chars = chars_of(message.as_str());
        let trimmed = chars_trim(chars.as_slice());
        if self.saw_open && !is_continuation_line(message.as_str()) {
            return false;
        }
        if !self.saw_open && trimmed.len() > 0 && trimmed[0] != '{' {
            return false;
        }
        proof {
            law_block_stays_bounded(self@, line@);
            lemma_message_bytes(line@);
            text::bytes::lemma_byte_len_bounds(message@);
        }
        self.update_brace_depth(chars.as_slice());
        self.bytes += str_len(message.as_str());
        self.lines.push(message);
        true
    }

    /// Whether every brace of the block is closed.
    pub fn is_complete(&self) -> (result: bool)
        ensures
            result == self@.complete(),
    {
        self.saw_open && self.brace_depth <= 0
    }

    fn update_brace_depth(&mut self, line: &[char])
        requires
            -MAX_BLOCK_BYTES <= old(self).brace_depth <= MAX_BLOCK_BYTES,
            line@.len() <= MAX_BLOCK_BYTES,
        ensures
            final(self)@ == (PendingView {
                depth: old(self)@.depth + brace_balance(line@, None, false),
                open: old(self)@.open || opens_brace(line@, None, false),
                ..old(self)@
            }),
    {
        let mut quote: Option<char> = None;
        let mut escaped = false;
        let mut i: usize = 0;
        assert(line@.skip(0) =~= line@);
        while i < line.len()
            invariant
                i <= line@.len(),
                -MAX_BLOCK_BYTES <= old(self).brace_depth <= MAX_BLOCK_BYTES,
                line@.len() <= MAX_BLOCK_BYTES,
                -i <= self.brace_depth - old(self).brace_depth <= i,
                self@.depth + brace_balance(line@.skip(i as int), quote, escaped) == old(
                    self,
                )@.depth + brace_balance(line@, None, false),
                (self@.open || opens_brace(line@.skip(i as int), quote, escaped)) == (old(
                    self,
                )@.open || opens_brace(line@, None, false)),
                self@ == (PendingView { depth: self@.depth, open: self@.open, ..old(self)@ }),
            decreases line@.len() - i,
        {
            assert(line@.skip(i as int).drop_first() =~= line@.skip(i + 1));
            let c = line[i];
            match quote {
                Some(mark) => {
                    if escaped {
                        escaped = false;
                    } else if c == '\\' {
                        escaped = true;
                    } else if c == mark {
                        quote = None;
                    }
                },
                None => {
                    if c == '"' || c == '\'' {
                        quote = Some(c);
                    } else if c == '{' {
                        self.saw_open = true;
                        self.brace_depth += 1;
                    } else if c == '}' {
                        self.brace_depth -= 1;
                    }
                },
            }
            i += 1;
        }
    }
}

} // verus!
