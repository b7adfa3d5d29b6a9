//! Events whose source may stand in their properties.
use crate::model::property::parse_property_object;
use crate::model::source::{message_without_source_prefix, parse_compose_line};
use crate::model::structured::parse_property_block_header;
use crate::model::{self, event, property, source, structured};
use crate::model::{
    EventView, LogEvent, LogProperty, ParsedLine, PropertyBlockHeader, PropertyView, SourceConfig,
};
use crate::text;
use crate::text::{chars_of, chars_trim, copy_str, same, string_of};
use vstd::prelude::*;

verus! {

/// The first source that the fields name among the properties, from the field
/// at `i` on.
pub open spec fn named_source(
    properties: Seq<PropertyView>,
    fields: Seq<Seq<char>>,
    i: int,
) -> Option<Seq<char>>
    decreases fields.len() - i,
{
    if i >= fields.len() {
        None
    } else {
        match model::property_value(properties, fields[i]) {
            Some(value) => if text::trim(value.display()).len() > 0 {
                Some(text::trim(value.display()))
            } else {
                named_source(properties, fields, i + 1)
            },
            None => named_source(properties, fields, i + 1),
        }
    }
}

/// An event whose unknown source is taken from its properties.
pub open spec fn promoted(event: EventView, fields: Seq<Seq<char>>) -> EventView {
    if event.source != "unknown"@ {
        event
    } else {
        match named_source(event.properties, fields, 0) {
            Some(source) => EventView { source, ..event },
            None => event,
        }
    }
}

/// Reads lines into events.
#[derive(Debug, Clone, Copy)]
pub struct LogInterpreter;

impl Default for LogInterpreter {
    fn default() -> (result: Self)
        ensures
            result == LogInterpreter,
    {
        LogInterpreter
    }
}

impl LogInterpreter {
    /// Tells the source of a line.
    pub fn parse_source_line(self, line: &str) -> (result: ParsedLine)
        ensures
            result@ == source::compose_line(line@),
    {
        parse_compose_line(line)
    }

    /// Reads a property block header.
    pub fn property_block_header(self, line: &str) -> (result: Option<PropertyBlockHeader>)
        ensures
            text::opt_view(result) == structured::block_header(line@),
    {
        parse_property_block_header(line)
    }

    /// Reads a property object.
    pub fn property_object(self, input: &str) -> (result: Option<Vec<LogProperty>>)
        ensures
            property::list_view(result) == property::object_of(input@),
    {
        parse_property_object(input)
    }

    /// The message of a line, without the source before it.
    pub fn message_without_source_prefix(self, line: &str) -> (result: String)
        ensures
            result@ == source::source_message(line@).1,
    {
        message_without_source_prefix(line)
    }

    /// The event of a parsed line.
    pub fn event_from_source_line(
        self,
        sequence: u64,
        raw: String,
        parsed: ParsedLine,
        source_config: &SourceConfig,
    ) -> (result: LogEvent)
        ensures
            result@ == promoted(
                event::event_of(sequence, raw@, parsed@.source, parsed@.message),
                source_config@.fields,
            ),
    {
        let mut event = LogEvent::from_parsed_line(sequence, raw, parsed);
        self.promote_source(&mut event, source_config);
        event
    }

    /// Gives an event other properties.
    pub fn apply_properties(
        self,
        event: &mut LogEvent,
        properties: Vec<LogProperty>,
        source_config: &SourceConfig,
    )
        ensures
            final(event)@ == promoted(
                EventView { properties: text::views(properties@), ..old(event)@ },
                source_config@.fields,
            ),
    {
        event.set_properties(properties);
        self.promote_source(event, source_config);
    }

    fn promote_source(self, event: &mut LogEvent, source_config: &SourceConfig)
        ensures
            final(event)@ == promoted(old(event)@, source_config@.fields),
    {
        if !same(event.source.as_str(), "unknown") {
            return ;
        }
        let fields = source_config.fields();
        let ghost names = source_config@.fields;
        let mut i: usize = 0;
        while i < fields.len()
            invariant
                i <= fields@.len(),
                *event == *old(event),
                event@.source == "unknown"@,
                names == text::views(fields@),
                names == source_config@.fields,
                named_source(event@.properties, names, 0) == named_source(
                    event@.properties,
                    names,
                    i as int,
                ),
            decreases fields@.len() - i,
        {
            let found = match event.property(fields[i].as_str()) {
                Some(property) => {
                    let shown = chars_of(property.value.as_display_str());
                    string_of(chars_trim(shown.as_slice()))
                },
                None => copy_str(""),
            };
            if !found.as_str().is_empty() {
                assert(named_source(event@.properties, names, i as int) == Some(found@)) by {
                    reveal_strlit("");
                    assert(names[i as int] == fields@[i as int]@);
                }
                event.source = found;
                return ;
            }
            proof {
                reveal_strlit("");
                assert(names[i as int] == fields@[i as int]@);
            }
            i += 1;
        }
    }
}

} // verus!
