use loggle::buffer::pending::{MAX_BLOCK_BYTES, MAX_BLOCK_LINES};
use loggle::buffer::size::event_bytes;
use loggle::buffer::{LogBuffer, MAX_CONTEXTS, MAX_RECORD_BYTES, MAX_RETAINED_BYTES};
use loggle::model::SourceConfig;

fn sources(buffer: &LogBuffer) -> Vec<&str> {
    buffer
        .events()
        .iter()
        .map(|event| event.source.as_str())
        .collect()
}

fn source_config(fields: &[&str]) -> SourceConfig {
    let fields: Vec<String> = fields.iter().map(|field| field.to_string()).collect();
    SourceConfig::with_fields(&fields)
}

#[test]
fn retains_only_the_configured_number_of_lines() {
    let mut buffer = LogBuffer::new(3);

    buffer.push_line("api | one".to_string());
    buffer.push_line("api | two".to_string());
    buffer.push_line("api | three".to_string());
    buffer.push_line("api | four".to_string());

    let raws = buffer
        .events()
        .iter()
        .map(|event| event.raw.as_str())
        .collect::<Vec<_>>();
    let sequences = buffer
        .events()
        .iter()
        .map(|event| event.sequence)
        .collect::<Vec<_>>();

    assert_eq!(raws, vec!["api | two", "api | three", "api | four"]);
    assert_eq!(sequences, vec![1, 2, 3]);
}

#[test]
fn finds_events_by_sequence_after_eviction() {
    let mut buffer = LogBuffer::new(3);

    buffer.push_line("api | one".to_string());
    buffer.push_line("api | two".to_string());
    buffer.push_line("api | three".to_string());
    buffer.push_line("api | four".to_string());

    assert!(buffer.event_by_sequence(0).is_none());
    assert_eq!(buffer.event_by_sequence(1).unwrap().message, "two");
    assert_eq!(buffer.event_by_sequence(3).unwrap().message, "four");
}

#[test]
fn finds_events_by_sequence_after_sequence_gap() {
    let mut buffer = LogBuffer::new(5);

    buffer.push_line("api | one".to_string());
    buffer.push_line("api | two".to_string());
    buffer.push_line("api | three".to_string());
    buffer.events.remove(1);

    assert_eq!(buffer.event_by_sequence(2).unwrap().message, "three");
}

#[test]
fn inherits_source_for_buildkit_step_continuations() {
    let mut buffer = LogBuffer::new(10);

    buffer.push_line(
        "#35 [vev-statistics base 5/7] RUN --mount=type=secret,id=NODE_AUTH_TOKEN sh -c 'npm ci'"
            .to_string(),
    );
    buffer.push_line("#35 0.531 npm ci".to_string());

    assert_eq!(sources(&buffer), vec!["vev-statistics", "vev-statistics"]);
    assert_eq!(
        buffer.events()[0].message,
        "#35 [base 5/7] RUN --mount=type=secret,id=NODE_AUTH_TOKEN sh -c 'npm ci'"
    );
    assert_eq!(buffer.events()[1].message, "#35 0.531 npm ci");
}

#[test]
fn inherits_source_for_buildkit_internal_step_continuations() {
    let mut buffer = LogBuffer::new(10);

    buffer.push_line("#11 [vev-statistics internal] load metadata for node".to_string());
    buffer.push_line("#11 DONE 1.4s".to_string());

    assert_eq!(sources(&buffer), vec!["vev-statistics", "vev-statistics"]);
    assert_eq!(
        buffer.events()[0].message,
        "#11 [internal] load metadata for node"
    );
    assert_eq!(buffer.events()[1].message, "#11 DONE 1.4s");
}

#[test]
fn inherits_source_for_unprefixed_stack_continuations() {
    let mut buffer = LogBuffer::new(10);

    buffer.push_line("[backend] ERROR failed".to_string());
    buffer.push_line("    at handler (/app/src/main.ts:10:3)".to_string());
    buffer.push_line("Caused by: TypeError: missing user".to_string());

    assert_eq!(sources(&buffer), vec!["backend", "backend", "backend"]);
    assert_eq!(
        buffer.events()[1].message,
        "    at handler (/app/src/main.ts:10:3)"
    );
    assert_eq!(
        buffer.events()[2].message,
        "Caused by: TypeError: missing user"
    );
}

#[test]
fn inherits_source_for_unprefixed_structured_continuations() {
    let mut buffer = LogBuffer::new(10);

    buffer.push_line("[api] INFO request completed".to_string());
    buffer.push_line("{".to_string());
    buffer.push_line("requestId: \"abc-123\",".to_string());
    buffer.push_line("}".to_string());

    assert_eq!(sources(&buffer), vec!["api", "api", "api", "api"]);
}

#[test]
fn standalone_unprefixed_lines_reset_source_inheritance() {
    let mut buffer = LogBuffer::new(10);

    buffer.push_line("[backend] INFO ready".to_string());
    buffer.push_line("VITE ready in 200 ms".to_string());
    buffer.push_line("  plugin ready".to_string());

    assert_eq!(sources(&buffer), vec!["backend", "unknown", "unknown"]);
}

#[test]
fn explicit_sources_update_inherited_source_context() {
    let mut buffer = LogBuffer::new(10);

    buffer.push_line("[backend] ERROR failed".to_string());
    buffer.push_line("    at backend_handler".to_string());
    buffer.push_line("[frontend] ERROR failed".to_string());
    buffer.push_line("    at frontend_handler".to_string());

    assert_eq!(
        sources(&buffer),
        vec!["backend", "backend", "frontend", "frontend"]
    );
}

#[test]
fn promotes_default_source_fields_from_inline_properties() {
    let mut buffer = LogBuffer::new(10);

    buffer.push_line("INFO ready service=api".to_string());
    buffer.push_line("INFO ready app=web".to_string());

    assert_eq!(sources(&buffer), vec!["api", "web"]);
}

#[test]
fn promotes_source_field_from_json_properties() {
    let mut buffer = LogBuffer::new(10);

    buffer.push_line(
        r#"{"level":"info","message":"ready","service":"vev-mcp","module":"Function"}"#
            .to_string(),
    );

    assert_eq!(sources(&buffer), vec!["vev-mcp"]);
    assert_eq!(buffer.events()[0].message, "ready");
}

#[test]
fn promotes_source_field_from_embedded_json_log_properties() {
    let mut buffer = LogBuffer::new(10);

    buffer.push_line(
        r#"{"log":"{\"level\":\"info\",\"message\":\"ready\",\"service\":\"vev-mcp\"}\n","stream":"stdout","time":"2026-06-04T13:00:20Z"}"#.to_string(),
    );

    assert_eq!(sources(&buffer), vec!["vev-mcp"]);
    assert_eq!(buffer.events()[0].message, "ready");
}

#[test]
fn promotes_configured_source_fields_before_default_fields() {
    let mut buffer = LogBuffer::with_source_config(10, source_config(&["logger", "service"]));

    buffer.push_line("INFO ready service=backend logger=api".to_string());

    assert_eq!(sources(&buffer), vec!["api"]);
}

#[test]
fn promotes_quoted_inline_source_field_values() {
    let mut buffer = LogBuffer::with_source_config(10, source_config(&["service"]));

    buffer.push_line("INFO ready service=\"api server\"".to_string());

    assert_eq!(sources(&buffer), vec!["api server"]);
}

#[test]
fn explicit_source_prefix_wins_over_inline_source_fields() {
    let mut buffer = LogBuffer::with_source_config(10, source_config(&["service"]));

    buffer.push_line("[frontend] INFO ready service=backend".to_string());

    assert_eq!(sources(&buffer), vec!["frontend"]);
}

#[test]
fn merges_property_block_into_previous_structured_event() {
    let mut buffer = LogBuffer::new(10);

    buffer
        .push_line("14:06:58.892 INFO http.request GET /api/v1/inventory 200 96ms".to_string());
    buffer.push_line("[14:06:58.892] INFO (#147):".to_string());
    buffer.push_line("  {".to_string());
    buffer.push_line("    messageKey: \"http.request\",".to_string());
    buffer.push_line("    statusCode: 200,".to_string());
    buffer.push_line("  }".to_string());

    assert_eq!(buffer.events().len(), 1);
    let event = buffer.events().back().unwrap();
    assert_eq!(event.message, "http.request GET /api/v1/inventory 200 96ms");
    assert_eq!(event.properties.len(), 2);
    assert_eq!(event.properties[0].key, "messageKey");
    assert_eq!(event.properties[1].key, "statusCode");
}

#[test]
fn does_not_guess_owner_of_unprefixed_multiplexed_property_body() {
    let mut buffer = LogBuffer::new(10);

    buffer.push_line("[backend] 14:06:58.892 INFO http.request ok".to_string());
    buffer.push_line("[backend] [14:06:58.892] INFO (#147):".to_string());
    buffer.push_line("{".to_string());
    buffer.push_line("requestId: \"abc-123\",".to_string());
    buffer.push_line("}".to_string());

    assert_eq!(buffer.events().len(), 4);
    let event = buffer.events().front().unwrap();
    assert_eq!(event.source, "backend");
    assert_eq!(event.message, "http.request ok");
    assert!(event.properties.is_empty());
}

#[test]
fn merges_bracket_prefixed_property_block_body_into_previous_structured_event() {
    let mut buffer = LogBuffer::new(10);

    buffer.push_line("[api] 21:05:37.312 INFO http.request ok".to_string());
    buffer.push_line("[api] [21:05:37.312] INFO (#140):".to_string());
    buffer.push_line("[api] {".to_string());
    buffer.push_line("[api] messageKey: \"http.request\",".to_string());
    buffer.push_line("[api] statusCode: 200,".to_string());
    buffer.push_line("[api] }".to_string());

    assert_eq!(buffer.events().len(), 1);
    let event = buffer.events().back().unwrap();
    assert_eq!(event.source, "api");
    assert_eq!(event.message, "http.request ok");
    assert_eq!(event.properties.len(), 2);
    assert_eq!(event.properties[0].key, "messageKey");
    assert_eq!(event.properties[1].key, "statusCode");
}

#[test]
fn merges_compose_prefixed_property_block_body_into_previous_structured_event() {
    let mut buffer = LogBuffer::new(10);

    buffer.push_line("api | 21:05:37.312 INFO http.request ok".to_string());
    buffer.push_line("api | [21:05:37.312] INFO (#140):".to_string());
    buffer.push_line("api | {".to_string());
    buffer.push_line("api | requestId: \"abc-123\",".to_string());
    buffer.push_line("api | statusCode: 200,".to_string());
    buffer.push_line("api | }".to_string());

    assert_eq!(buffer.events().len(), 1);
    let event = buffer.events().back().unwrap();
    assert_eq!(event.source, "api");
    assert_eq!(event.message, "http.request ok");
    assert_eq!(event.properties.len(), 2);
    assert_eq!(event.properties[0].key, "requestId");
    assert_eq!(event.properties[1].key, "statusCode");
}

#[test]
fn moves_property_block_onto_following_structured_event() {
    let mut buffer = LogBuffer::new(10);

    buffer.push_line("[api] [21:05:37.312] INFO (#140):".to_string());
    buffer.push_line("[api] {".to_string());
    buffer.push_line("[api] requestId: \"89698d63\",".to_string());
    buffer.push_line("[api] statusCode: 200,".to_string());
    buffer.push_line("[api] }".to_string());
    buffer.push_line("[api] 21:05:37.312 INFO http.request ok".to_string());

    assert_eq!(buffer.events().len(), 1);
    let event = buffer.events().back().unwrap();
    assert_eq!(event.source, "api");
    assert_eq!(event.message, "http.request ok");
    assert_eq!(event.properties.len(), 2);
    assert_eq!(event.properties[0].key, "requestId");
    assert_eq!(event.properties[1].key, "statusCode");
}

#[test]
fn promotes_source_fields_from_merged_property_blocks() {
    let mut buffer = LogBuffer::with_source_config(10, source_config(&["service"]));

    buffer.push_line("14:06:58.892 INFO http.request ok".to_string());
    buffer.push_line("[14:06:58.892] INFO (#147):".to_string());
    buffer.push_line("{".to_string());
    buffer.push_line("service: \"api\",".to_string());
    buffer.push_line("}".to_string());

    assert_eq!(buffer.events().len(), 1);
    assert_eq!(buffer.events().back().unwrap().source, "api");
}

#[test]
fn keeps_unmatched_property_header_as_a_visible_line() {
    let mut buffer = LogBuffer::new(10);

    buffer.push_line("[14:06:58.892] INFO (#147):".to_string());

    assert_eq!(buffer.events().len(), 1);
    assert_eq!(
        buffer.events().back().unwrap().raw,
        "[14:06:58.892] INFO (#147):"
    );
}

#[test]
fn keeps_following_non_object_line_visible_after_unmatched_property_header() {
    let mut buffer = LogBuffer::new(10);

    buffer.push_line("[14:06:58.892] INFO (#147):".to_string());
    buffer.push_line("VITE ready in 200 ms".to_string());

    let raws = buffer
        .events()
        .iter()
        .map(|event| event.raw.as_str())
        .collect::<Vec<_>>();

    assert_eq!(
        raws,
        vec!["[14:06:58.892] INFO (#147):", "VITE ready in 200 ms"]
    );
}

#[test]
fn interleaved_compose_blocks_and_identical_headers_stay_isolated() {
    let mut buffer = LogBuffer::new(10);
    for line in [
        "api | 14:06:58.892 INFO api request",
        "web | 14:06:58.892 INFO web request",
        "api | [14:06:58.892] INFO (#1):",
        "web | [14:06:58.892] INFO (#2):",
        "api | {",
        "web | {",
        "api | tenant: \"a\"",
        "web | tenant: \"b\"",
        "api | }",
        "web | }",
    ] {
        buffer.push_line(line.into());
    }
    assert_eq!(buffer.len(), 2);
    assert_eq!(
        buffer.events()[0]
            .property("tenant")
            .unwrap()
            .value
            .as_display_str(),
        "a"
    );
    assert_eq!(
        buffer.events()[1]
            .property("tenant")
            .unwrap()
            .value
            .as_display_str(),
        "b"
    );
}

#[test]
fn completed_blocks_and_partial_objects_do_not_cross_physical_streams() {
    let mut buffer = LogBuffer::new(10);
    for line in ["[14:06:58.892] INFO (#1):", "{", "tenant: \"a\"", "}"] {
        buffer.push_source_line(1, Some("api".into()), line.into());
    }
    buffer.push_source_line(
        2,
        Some("api".into()),
        "14:06:58.892 INFO other stream".into(),
    );
    assert!(buffer.events().back().unwrap().property("tenant").is_none());
    buffer.push_source_line(
        1,
        Some("api".into()),
        "14:06:58.892 INFO same stream".into(),
    );
    assert_eq!(buffer.len(), 2);
    assert!(buffer.events().back().unwrap().property("tenant").is_some());
    buffer.push_source_line(1, None, "[14:06:59.892] INFO (#1):".into());
    buffer.push_source_line(1, None, "{".into());
    let change = buffer.push_source_line(2, None, "INFO must remain visible".into());
    assert!(change.appended.is_some());
}

#[test]
fn malformed_assembly_and_context_tables_are_bounded() {
    let mut buffer = LogBuffer::new(16);
    buffer.push_line("[14:06:58.892] INFO (#1):".into());
    buffer.push_line("{".into());
    for _ in 0..MAX_BLOCK_LINES * 2 {
        buffer.push_line("  x: 1,".into());
    }
    assert!(buffer.pending_properties.is_empty());
    assert!(buffer.len() <= 16);
    buffer.push_line("[14:06:58.893] INFO (#1):".into());
    buffer.push_line("{".into());
    buffer.push_line(format!("  x: \"{}\"", "x".repeat(MAX_BLOCK_BYTES)));
    assert!(buffer.pending_properties.is_empty());
    for index in 0..2048 {
        buffer.push_source_line(index, None, format!("#{} [api base 1/2] RUN task", index));
        assert!(buffer.last_sequences.len() <= MAX_CONTEXTS);
        assert!(buffer.active_source.len() <= MAX_CONTEXTS);
        assert!(buffer.buildkit_steps.len() <= 1024);
    }
}

#[test]
fn byte_retention_evicts_large_records_before_the_line_limit() {
    let mut buffer = LogBuffer::new(1000);
    for _ in 0..150 {
        buffer.push_line("x".repeat(MAX_RECORD_BYTES));
        assert!(buffer.retained_bytes <= MAX_RETAINED_BYTES as u128);
        assert_eq!(
            buffer.retained_bytes,
            buffer.events.iter().map(|event| event_bytes(event) as u128).sum::<u128>()
        );
    }
    assert!(buffer.len() < 150);
    assert_eq!(buffer.events.back().unwrap().sequence, 149);
}

#[test]
fn a_line_becomes_an_event_or_goes_to_one() {
    let mut buffer = LogBuffer::new(10);
    for line in [
        "api | 14:06:58.892 INFO first",
        "api | [14:06:58.892] INFO (#1):",
        "api | {",
        "api | tenant: \"a\"",
        "api | }",
        "api | INFO second",
    ] {
        let change = buffer.push_line(line.to_string());
        assert!(change.appended.is_some() != change.consumed_by.is_some());
    }
}

fn tenants(buffer: &LogBuffer) -> Vec<Option<&str>> {
    buffer
        .events()
        .iter()
        .map(|event| {
            event
                .property("tenant")
                .map(|property| property.value.as_display_str())
        })
        .collect()
}

#[test]
fn a_header_without_a_source_is_not_given_to_one_of_two() {
    let mut buffer = LogBuffer::new(10);
    for line in [
        "api | 14:06:58.892 INFO a",
        "web | 14:06:58.892 INFO b",
        "[14:06:58.892] INFO (#1):",
        "{",
        "tenant: \"one\"",
        "}",
    ] {
        buffer.push_line(line.to_string());
    }
    assert_eq!(tenants(&buffer), [None, None, Some("one")]);
    assert_eq!(buffer.events()[2].raw, "[14:06:58.892] INFO (#1):");
}

#[test]
fn headers_without_a_source_go_to_the_one_source_there_is() {
    let mut buffer = LogBuffer::new(10);
    for line in [
        "api | 14:06:58.892 INFO a",
        "[14:06:58.892] INFO (#1):",
        "{",
        "tenant: \"one\"",
        "}",
        "api | 14:06:59.100 INFO b",
        "[14:06:59.100] INFO (#2):",
        "{",
        "tenant: \"two\"",
        "}",
        "web | 14:06:59.100 INFO c",
        "[14:06:59.100] INFO (#3):",
    ] {
        buffer.push_line(line.to_string());
    }
    assert_eq!(tenants(&buffer), [Some("one"), Some("two"), None, None]);
    assert_eq!(buffer.events()[3].raw, "[14:06:59.100] INFO (#3):");
}

#[test]
fn a_line_without_a_source_of_its_own_keeps_headers_to_itself() {
    let mut buffer = LogBuffer::new(10);
    for line in [
        "api | 14:06:58.892 INFO a",
        "VITE ready",
        "[14:06:58.892] INFO (#1):",
    ] {
        buffer.push_line(line.to_string());
    }
    assert_eq!(buffer.len(), 3);
}
