//! Where a line comes from: source prefixes, compose status lines and the
//! steps of image builds.
use crate::model::clean::clean_chars;
use crate::model::structured::{self, looks_like_timestamp};
use crate::model::{clean, ParsedLine, ParsedLineView};
use crate::text;
use crate::text::split::{chars_words, join_chars};
use crate::text::{
    chars_all_digits, chars_all_name_chars, chars_eq_ignore_case, chars_index_of_space, chars_skip,
    chars_split_once, chars_strip_first, chars_take, chars_trim, chars_trim_end, chars_trim_end_char,
    chars_trim_start, copy_str, push_chars, push_str, split_first_token, string_of,
};
use vstd::prelude::*;

verus! {

/// A message and the source named before it.
#[derive(Debug, PartialEq, Eq)]
pub struct SourceMessage {
    pub source: Option<String>,
    pub message: String,
}

impl View for SourceMessage {
    type V = (Option<Seq<char>>, Seq<char>);

    open spec fn view(&self) -> (Option<Seq<char>>, Seq<char>) {
        (text::opt_view(self.source), self.message@)
    }
}

/// The source named by a prefix that ends with `|`, and the message after it.
pub open spec fn piped(line: Seq<char>) -> (Option<Seq<char>>, Seq<char>) {
    match text::split_once(line, '|') {
        Some((head, tail)) => if text::trim(head).len() > 0 {
            (Some(text::trim(head)), text::trim_start(tail))
        } else {
            (None, line)
        },
        None => (None, line),
    }
}

/// The source and the message of a clean line. A source stands in brackets, or
/// before a `|`; brackets round a time name no source.
pub open spec fn source_message_clean(line: Seq<char>) -> (Option<Seq<char>>, Seq<char>) {
    match text::strip_first(line, '[') {
        Some(rest) => match text::split_once(rest, ']') {
            Some((head, tail)) => {
                let candidate = text::trim(head);
                if structured::is_timestamp(candidate) {
                    (None, line)
                } else if candidate.len() > 0 {
                    (Some(candidate), text::trim_start(tail))
                } else {
                    piped(line)
                }
            },
            None => piped(line),
        },
        None => piped(line),
    }
}

/// The source and the message of a line.
pub open spec fn source_message(line: Seq<char>) -> (Option<Seq<char>>, Seq<char>) {
    source_message_clean(clean::clean(line))
}

fn split_piped(line: &[char]) -> (result: SourceMessage)
    ensures
        result@ == piped(line@),
{
    match chars_split_once(line, '|') {
        Some((head, tail)) => {
            let source = chars_trim(head);
            if source.len() > 0 {
                return SourceMessage {
                    source: Some(string_of(source)),
                    message: string_of(chars_trim_start(tail)),
                };
            }
        },
        None => {},
    }
    SourceMessage { source: None, message: string_of(line) }
}

/// Tells the source of a line from its message.
pub fn split_source_message(line: &str) -> (result: SourceMessage)
    ensures
        result@ == source_message(line@),
{
    let cleaned = clean_chars(line);
    let line = cleaned.as_slice();
    match chars_strip_first(line, '[') {
        Some(rest) => match chars_split_once(rest, ']') {
            Some((head, tail)) => {
                let candidate = chars_trim(head);
                if looks_like_timestamp(candidate) {
                    SourceMessage { source: None, message: string_of(line) }
                } else if candidate.len() > 0 {
                    SourceMessage {
                        source: Some(string_of(candidate)),
                        message: string_of(chars_trim_start(tail)),
                    }
                } else {
                    split_piped(line)
                }
            },
            None => split_piped(line),
        },
        None => split_piped(line),
    }
}

/// The message of a line, without the source before it.
pub fn message_without_source_prefix(line: &str) -> (result: String)
    ensures
        result@ == source_message(line@).1,
{
    split_source_message(line).message
}

/// Whether a word can name a source.
pub open spec fn is_source_token(s: Seq<char>) -> bool {
    s.len() > 0 && text::all_name_chars(s)
}

/// Whether a word can name a source.
pub fn looks_like_source_token(s: &[char]) -> (result: bool)
    ensures
        result == is_source_token(s@),
{
    s.len() > 0 && chars_all_name_chars(s)
}

/// Whether a word is a status that compose reports.
pub open spec fn is_compose_status(s: Seq<char>) -> bool {
    ||| text::eq_ignore_case(s, "Pulling"@)
    ||| text::eq_ignore_case(s, "Pulled"@)
    ||| text::eq_ignore_case(s, "Building"@)
    ||| text::eq_ignore_case(s, "Built"@)
    ||| text::eq_ignore_case(s, "Error"@)
    ||| text::eq_ignore_case(s, "Started"@)
    ||| text::eq_ignore_case(s, "Starting"@)
    ||| text::eq_ignore_case(s, "Healthy"@)
    ||| text::eq_ignore_case(s, "Waiting"@)
    ||| text::eq_ignore_case(s, "Exited"@)
    ||| text::eq_ignore_case(s, "Recreated"@)
    ||| text::eq_ignore_case(s, "Recreating"@)
    ||| text::eq_ignore_case(s, "Running"@)
    ||| text::eq_ignore_case(s, "Created"@)
    ||| text::eq_ignore_case(s, "Creating"@)
}

fn looks_like_compose_status(s: &[char]) -> (result: bool)
    ensures
        result == is_compose_status(s@),
{
    chars_eq_ignore_case(s, "Pulling") || chars_eq_ignore_case(s, "Pulled") || chars_eq_ignore_case(
        s,
        "Building",
    ) || chars_eq_ignore_case(s, "Built") || chars_eq_ignore_case(s, "Error")
        || chars_eq_ignore_case(s, "Started") || chars_eq_ignore_case(s, "Starting")
        || chars_eq_ignore_case(s, "Healthy") || chars_eq_ignore_case(s, "Waiting")
        || chars_eq_ignore_case(s, "Exited") || chars_eq_ignore_case(s, "Recreated")
        || chars_eq_ignore_case(s, "Recreating") || chars_eq_ignore_case(s, "Running")
        || chars_eq_ignore_case(s, "Created") || chars_eq_ignore_case(s, "Creating")
}

/// A status line of compose: a source, a status and the rest.
pub open spec fn compose_status(line: Seq<char>) -> Option<ParsedLineView> {
    match text::first_token(text::trim_start(line)) {
        None => None,
        Some((source, tail)) => {
            let rest = text::trim_start(tail);
            match text::first_token(rest) {
                None => None,
                Some((status, _)) => if is_source_token(source) && is_compose_status(
                    text::trim_end_char(status, ':'),
                ) {
                    Some(ParsedLineView { source, message: rest, source_explicit: true })
                } else {
                    None
                },
            }
        },
    }
}

fn parse_compose_status_line(line: &[char]) -> (result: Option<ParsedLine>)
    ensures
        text::opt_view(result) == compose_status(line@),
{
    match split_first_token(chars_trim_start(line)) {
        None => None,
        Some((source, tail)) => {
            if !looks_like_source_token(source) {
                return None;
            }
            let rest = chars_trim_start(tail);
            match split_first_token(rest) {
                None => None,
                Some((status, _)) => {
                    if looks_like_compose_status(chars_trim_end_char(status, ':')) {
                        Some(
                            ParsedLine {
                                source: string_of(source),
                                message: string_of(rest),
                                source_explicit: true,
                            },
                        )
                    } else {
                        None
                    }
                },
            }
        },
    }
}

/// A line with its source told apart: from a prefix, from a compose status, or
/// `unknown`.
pub open spec fn compose_line(line: Seq<char>) -> ParsedLineView {
    let (source, message) = source_message(line);
    match source {
        Some(source) => ParsedLineView { source, message, source_explicit: true },
        None => match compose_status(message) {
            Some(parsed) => parsed,
            None => ParsedLineView { source: "unknown"@, message, source_explicit: false },
        },
    }
}

/// Tells the source of a line.
pub fn parse_compose_line(line: &str) -> (result: ParsedLine)
    ensures
        result@ == compose_line(line@),
{
    let split = split_source_message(line);
    match split.source {
        Some(source) => ParsedLine { source, message: split.message, source_explicit: true },
        None => {
            let chars = text::chars_of(split.message.as_str());
            match parse_compose_status_line(chars.as_slice()) {
                Some(parsed) => parsed,
                None => ParsedLine {
                    source: copy_str("unknown"),
                    message: split.message,
                    source_explicit: false,
                },
            }
        },
    }
}

/// A line of an image build: its step, the service it is for, and its message.
#[derive(Debug, PartialEq, Eq)]
pub struct BuildKitStepLine {
    pub step_id: String,
    pub source: Option<String>,
    pub message: String,
}

/// What a build step line is.
pub struct BuildKitView {
    pub step_id: Seq<char>,
    pub source: Option<Seq<char>>,
    pub message: Seq<char>,
}

impl View for BuildKitStepLine {
    type V = BuildKitView;

    open spec fn view(&self) -> BuildKitView {
        BuildKitView {
            step_id: self.step_id@,
            source: text::opt_view(self.source),
            message: self.message@,
        }
    }
}

/// Whether a word is a step count such as `2/5`.
pub open spec fn is_step_count(s: Seq<char>) -> bool {
    match text::split_once(s, '/') {
        Some((current, total)) => current.len() > 0 && total.len() > 0 && text::all_digits(current)
            && text::all_digits(total),
        None => false,
    }
}

fn looks_like_buildkit_step_count(s: &[char]) -> (result: bool)
    ensures
        result == is_step_count(s@),
{
    match chars_split_once(s, '/') {
        Some((current, total)) => current.len() > 0 && total.len() > 0 && chars_all_digits(current)
            && chars_all_digits(total),
        None => false,
    }
}

/// Whether a word in front of a build step names no service.
pub open spec fn is_reserved_step_source(s: Seq<char>) -> bool {
    text::eq_ignore_case(s, "internal"@) || text::eq_ignore_case(s, "auth"@)
}

fn is_reserved_buildkit_source(s: &[char]) -> (result: bool)
    ensures
        result == is_reserved_step_source(s@),
{
    chars_eq_ignore_case(s, "internal") || chars_eq_ignore_case(s, "auth")
}

/// The service that the bracketed context of a build step names: its first
/// word, where `internal` follows it or a step count ends the context.
pub open spec fn context_source(context: Seq<char>) -> Option<Seq<char>> {
    let parts = text::split::words(context);
    if parts.len() < 2 || !is_source_token(parts[0]) || is_reserved_step_source(parts[0]) {
        None
    } else if text::eq_ignore_case(parts[1], "internal"@) || (parts.len() >= 3 && is_step_count(
        parts.last(),
    )) {
        Some(parts[0])
    } else {
        None
    }
}

fn buildkit_context_source(context: &[char]) -> (result: Option<String>)
    ensures
        text::opt_view(result) == context_source(context@),
{
    let parts = chars_words(context);
    let ghost all = text::split::slice_views(parts@);
    if parts.len() < 2 {
        return None;
    }
    let source = parts[0];
    assert(all[0] == source@);
    if !looks_like_source_token(source) || is_reserved_buildkit_source(source) {
        return None;
    }
    let second = parts[1];
    assert(all[1] == second@);
    if chars_eq_ignore_case(second, "internal") {
        return Some(string_of(source));
    }
    let last = parts[parts.len() - 1];
    assert(all.last() == last@);
    if parts.len() >= 3 && looks_like_buildkit_step_count(last) {
        Some(string_of(source))
    } else {
        None
    }
}

/// The context of a build step without the service in front of it.
pub open spec fn context_without_source(context: Seq<char>) -> Seq<char> {
    if context_source(context) is Some {
        text::split::join(text::split::words(context).drop_first(), " "@)
    } else {
        context
    }
}

/// The message of a build step without the service.
pub open spec fn step_message(
    step_id: Seq<char>,
    context: Seq<char>,
    after_context: Seq<char>,
) -> Seq<char> {
    let kept = context_without_source(context);
    let after = text::trim_start(after_context);
    if kept.len() == 0 {
        text::trim_end(step_id + " "@ + after)
    } else if after.len() == 0 {
        step_id + " ["@ + kept + "]"@
    } else {
        step_id + " ["@ + kept + "] "@ + after
    }
}

fn buildkit_message_without_service(
    step_id: &[char],
    context: &[char],
    after_context: &[char],
) -> (result: String)
    ensures
        result@ == step_message(step_id@, context@, after_context@),
{
    let mut kept: Vec<char> = Vec::new();
    match buildkit_context_source(context) {
        Some(_) => {
            let mut parts = chars_words(context);
            let ghost all = text::split::slice_views(parts@);
            parts.remove(0);
            assert(text::split::slice_views(parts@) =~= all.drop_first());
            kept = join_chars(parts.as_slice(), " ");
        },
        None => {
            push_chars(&mut kept, context);
            assert(kept@ =~= context@);
        },
    }
    let after = chars_trim_start(after_context);
    let mut out: Vec<char> = Vec::new();
    push_chars(&mut out, step_id);
    assert(out@ =~= step_id@);
    if kept.len() == 0 {
        push_str(&mut out, " ");
        push_chars(&mut out, after);
        string_of(chars_trim_end(out.as_slice()))
    } else {
        push_str(&mut out, " [");
        push_chars(&mut out, kept.as_slice());
        if after.len() == 0 {
            push_str(&mut out, "]");
        } else {
            push_str(&mut out, "] ");
            push_chars(&mut out, after);
        }
        string_of(out.as_slice())
    }
}

/// The line of an image build that a clean line is: `#` and a step number, and
/// where a bracket follows them, the context of the step.
pub open spec fn buildkit_step_clean(line: Seq<char>) -> Option<BuildKitView> {
    let trimmed = text::trim_start(line);
    match text::strip_first(trimmed, '#') {
        None => None,
        Some(after_hash) => {
            let end = text::index_of_space(after_hash);
            let number = after_hash.take(end);
            let step_id = "#"@ + number;
            if end == after_hash.len() || number.len() == 0 || !text::all_digits(number) {
                None
            } else {
                match text::strip_first(text::trim_start(after_hash.skip(end)), '[') {
                    None => Some(BuildKitView { step_id, source: None, message: trimmed }),
                    Some(after_open) => match text::split_once(after_open, ']') {
                        None => None,
                        Some((head, tail)) => Some(
                            BuildKitView {
                                step_id,
                                source: context_source(text::trim(head)),
                                message: step_message(step_id, text::trim(head), tail),
                            },
                        ),
                    },
                }
            }
        },
    }
}

/// The line of an image build that a line is.
pub open spec fn buildkit_step(line: Seq<char>) -> Option<BuildKitView> {
    buildkit_step_clean(clean::clean(line))
}

/// Reads a line of an image build.
pub fn parse_buildkit_step_line(line: &str) -> (result: Option<BuildKitStepLine>)
    ensures
        text::opt_view(result) == buildkit_step(line@),
{
    let cleaned = clean_chars(line);
    let trimmed = chars_trim_start(cleaned.as_slice());
    match chars_strip_first(trimmed, '#') {
        None => None,
        Some(after_hash) => {
            let end = chars_index_of_space(after_hash);
            if end == after_hash.len() {
                return None;
            }
            let number = chars_take(after_hash, end);
            if number.len() == 0 || !chars_all_digits(number) {
                return None;
            }
            let mut step_id = text::chars_of("#");
            push_chars(&mut step_id, number);
            match chars_strip_first(chars_trim_start(chars_skip(after_hash, end)), '[') {
                None => Some(
                    BuildKitStepLine {
                        step_id: string_of(step_id.as_slice()),
                        source: None,
                        message: string_of(trimmed),
                    },
                ),
                Some(after_open) => match chars_split_once(after_open, ']') {
                    None => None,
                    Some((head, tail)) => {
                        let context = chars_trim(head);
                        Some(
                            BuildKitStepLine {
                                step_id: string_of(step_id.as_slice()),
                                source: buildkit_context_source(context),
                                message: buildkit_message_without_service(
                                    step_id.as_slice(),
                                    context,
                                    tail,
                                ),
                            },
                        )
                    },
                },
            }
        },
    }
}

} // verus!
