//! Events from lines.
use crate::model::json::{
    parse_inline_properties, parse_json_log_message, split_trailing_json_properties,
};
use crate::model::source::parse_compose_line;
use crate::model::structured::{infer_level, parse_structured_message};
use crate::model::{append_properties, json, source, structured};
use crate::model::{EventView, LogEvent, ParsedLine};
use vstd::prelude::*;

verus! {

/// The event that a message from a source is.
pub open spec fn event_of(
    sequence: u64,
    raw: Seq<char>,
    source: Seq<char>,
    message: Seq<char>,
) -> EventView {
    match json::message_log(message) {
        Some(log) => EventView {
            sequence,
            source,
            timestamp: log.timestamp,
            level: log.level,
            raw,
            message: log.message,
            properties: log.properties,
        },
        None => {
            let (timestamp, level, body) = match structured::structured(message) {
                Some(structured) => (structured.timestamp, structured.level, structured.message),
                None => (None, structured::inferred(message), message),
            };
            let (shown, trailing) = json::without_trailing_object(body);
            EventView {
                sequence,
                source,
                timestamp,
                level,
                raw,
                message: shown,
                properties: json::message_properties(shown) + trailing,
            }
        },
    }
}

/// The event that a line is.
pub open spec fn line_event(sequence: u64, raw: Seq<char>) -> EventView {
    let parsed = source::compose_line(raw);
    event_of(sequence, raw, parsed.source, parsed.message)
}

impl LogEvent {
    /// The event of a line.
    pub fn from_line(sequence: u64, raw: String) -> (result: Self)
        ensures
            result@ == line_event(sequence, raw@),
    {
        let parsed = parse_compose_line(raw.as_str());
        LogEvent::from_parsed_line(sequence, raw, parsed)
    }

    /// The event of a line whose source is known.
    pub fn from_parsed_line(sequence: u64, raw: String, parsed: ParsedLine) -> (result: Self)
        ensures
            result@ == event_of(sequence, raw@, parsed@.source, parsed@.message),
    {
        let source = parsed.source;
        let message = parsed.message;
        match parse_json_log_message(message.as_str()) {
            Some(log) => {
                return LogEvent {
                    sequence,
                    source,
                    timestamp: log.timestamp,
                    level: log.level,
                    raw,
                    message: log.message,
                    properties: log.properties,
                };
            },
            None => {},
        }
        let (timestamp, level, body) = match parse_structured_message(message.as_str()) {
            Some(structured) => (structured.timestamp, structured.level, structured.message),
            None => (None, infer_level(message.as_str()), message),
        };
        let (shown, trailing) = split_trailing_json_properties(body.as_str());
        let mut properties = parse_inline_properties(shown.as_str());
        append_properties(&mut properties, trailing);
        LogEvent { sequence, source, timestamp, level, raw, message: shown, properties }
    }
}

} // verus!
