use loggle::model::interpret::LogInterpreter;
use loggle::model::property::parse_property_object;
use loggle::model::source::{message_without_source_prefix, parse_compose_line};
use loggle::model::structured::{infer_level, parse_property_block_header};
use loggle::model::{Level, LogEvent, LogProperty, PropertyValue, SourceConfig};

fn strings(items: &[&str]) -> Vec<String> {
    items.iter().map(|item| item.to_string()).collect()
}

#[test]
fn source_config_equality_preserves_configured_field_precedence() {
    let defaults = SourceConfig::default();
    let explicit_default = SourceConfig::with_fields(&strings(&["source"]));

    assert_ne!(defaults, explicit_default);

    let default_reader = defaults.merged_with_configured_fields(&strings(&["session"]));
    let explicit_reader = explicit_default.merged_with_configured_fields(&strings(&["session"]));
    assert_eq!(&default_reader.fields()[..2], ["session", "source"]);
    assert_eq!(&explicit_reader.fields()[..2], ["source", "session"]);
}

#[test]
fn source_config_distinguishes_configured_fields_from_defaults() {
    let config = SourceConfig::with_fields(&strings(&["tenant", "service", "tenant", " "]));

    assert_eq!(*config.configured_fields(), ["tenant", "service"]);
    assert_eq!(
        *config.fields(),
         [
            "tenant",
            "service",
            "source",
            "app",
            "logger",
            "target",
            "component",
        ]
    );
    assert!(SourceConfig::default().configured_fields().is_empty());
}

#[test]
fn source_config_merges_reader_fields_before_persisted_fields() {
    let reader = SourceConfig::with_fields(&strings(&["reader", "shared"]));
    let merged =
        reader.merged_with_configured_fields(&strings(&["session", "shared", "source", "session"]));

    assert_eq!(
        *merged.configured_fields(),
         ["reader", "shared", "session", "source"]
    );
    assert_eq!(
        *merged.fields(),
         [
            "reader",
            "shared",
            "session",
            "source",
            "service",
            "app",
            "logger",
            "target",
            "component",
        ]
    );
}

#[test]
fn parses_compose_line_with_standard_spacing() {
    let parsed = parse_compose_line("api | ERROR failed");

    assert_eq!(parsed.source, "api");
    assert_eq!(parsed.message, "ERROR failed");
}

#[test]
fn parses_compose_line_with_spacing_variants() {
    let parsed = parse_compose_line("  worker  |    started");

    assert_eq!(parsed.source, "worker");
    assert_eq!(parsed.message, "started");
}

#[test]
fn parses_concurrently_named_prefix() {
    let parsed = parse_compose_line("[frontend] VITE ready");

    assert_eq!(parsed.source, "frontend");
    assert_eq!(parsed.message, "VITE ready");
    assert!(parsed.source_explicit);
}

#[test]
fn parses_colored_concurrently_named_prefix() {
    let parsed = parse_compose_line("\u{1b}[36m[backend]\u{1b}[0m INFO ready");

    assert_eq!(parsed.source, "backend");
    assert_eq!(parsed.message, "INFO ready");
    assert!(parsed.source_explicit);
}

#[test]
fn parses_colored_concurrently_padded_prefix() {
    let parsed = parse_compose_line("\u{1b}[35m[backend ]\u{1b}[0m ERROR failed");

    assert_eq!(parsed.source, "backend");
    assert_eq!(parsed.message, "ERROR failed");
    assert!(parsed.source_explicit);
}

#[test]
fn parses_concurrently_backend_prefix_with_level() {
    let raw = "[backend] INFO http.request GET /api/v1/auth/me 200".to_string();
    let event = LogEvent::from_line(0, raw.clone());

    assert_eq!(event.source, "backend");
    assert_eq!(event.message, "http.request GET /api/v1/auth/me 200");
    assert_eq!(event.level, Level::Info);
    assert_eq!(event.raw, raw);
}

#[test]
fn parses_winston_console_line_with_trailing_json_properties() {
    let event = LogEvent::from_line(
        0,
        r#"vev-mcp | 2026-06-04 13:30:19 debug: Retrieved conversation history {"module":"Function","unknown":{"userId":"user-1","tenantId":"tenant-1","messageCount":13}}"#.to_string(),
    );

    assert_eq!(event.source, "vev-mcp");
    assert_eq!(event.timestamp.as_deref(), Some("2026-06-04 13:30:19"));
    assert_eq!(event.level, Level::Debug);
    assert_eq!(event.message, "Retrieved conversation history");
    assert_eq!(
        event.property("module").map(|property| &property.value),
        Some(&PropertyValue::String("Function".to_string()))
    );
    assert_eq!(
        event
            .property("unknown.userId")
            .map(|property| &property.value),
        Some(&PropertyValue::String("user-1".to_string()))
    );
    assert_eq!(
        event
            .property("unknown.messageCount")
            .map(|property| &property.value),
        Some(&PropertyValue::Number("13".to_string()))
    );
}

#[test]
fn parses_inline_key_value_properties() {
    let event = LogEvent::from_line(
        0,
        "INFO request completed service=backend app=frontend logger=api".to_string(),
    );

    assert_eq!(
        event.property("service").map(|property| &property.value),
        Some(&PropertyValue::Text("backend".to_string()))
    );
    assert_eq!(
        event.property("app").map(|property| &property.value),
        Some(&PropertyValue::Text("frontend".to_string()))
    );
    assert_eq!(
        event.property("logger").map(|property| &property.value),
        Some(&PropertyValue::Text("api".to_string()))
    );
}

#[test]
fn parses_quoted_inline_property_values() {
    let event = LogEvent::from_line(
        0,
        "INFO request completed service=\"api server\"".to_string(),
    );

    assert_eq!(
        event.property("service").map(|property| &property.value),
        Some(&PropertyValue::String("api server".to_string()))
    );
}

#[test]
fn parses_single_line_json_properties() {
    let event = LogEvent::from_line(
        0,
        r#"api | {"requestId":"abc-123","statusCode":200,"ok":true}"#.to_string(),
    );

    assert_eq!(
        event.property("requestId").map(|property| &property.value),
        Some(&PropertyValue::String("abc-123".to_string()))
    );
    assert_eq!(
        event.property("statusCode").map(|property| &property.value),
        Some(&PropertyValue::Number("200".to_string()))
    );
    assert_eq!(
        event.property("ok").map(|property| &property.value),
        Some(&PropertyValue::Bool(true))
    );
}

#[test]
fn parses_structured_json_log_message() {
    let event = LogEvent::from_line(
        0,
        r#"vev-mcp | {"level":"debug","message":"Retrieved conversation history","module":"Function","service":"vev-mcp","vev-mcp":{"messageCount":13,"tenantId":"tenant-1","userId":"user-1"}}"#.to_string(),
    );

    assert_eq!(event.source, "vev-mcp");
    assert_eq!(event.level, Level::Debug);
    assert_eq!(event.message, "Retrieved conversation history");
    assert!(event.property("message").is_none());
    assert!(event.property("level").is_none());
    assert_eq!(
        event.property("module").map(|property| &property.value),
        Some(&PropertyValue::String("Function".to_string()))
    );
    assert_eq!(
        event.property("service").map(|property| &property.value),
        Some(&PropertyValue::String("vev-mcp".to_string()))
    );
    assert_eq!(
        event
            .property("vev-mcp.messageCount")
            .map(|property| &property.value),
        Some(&PropertyValue::Number("13".to_string()))
    );
    assert_eq!(
        event
            .property("vev-mcp.tenantId")
            .map(|property| &property.value),
        Some(&PropertyValue::String("tenant-1".to_string()))
    );
    assert_eq!(
        event
            .property("vev-mcp.userId")
            .map(|property| &property.value),
        Some(&PropertyValue::String("user-1".to_string()))
    );
}

#[test]
fn parses_json_log_embedded_in_message_field() {
    let event = LogEvent::from_line(
        0,
        r#"api | {"message":"{\"level\":\"debug\",\"message\":\"Retrieved conversation history\",\"module\":\"Function\",\"service\":\"vev-mcp\",\"vev-mcp\":{\"messageCount\":13}}","stream":"stdout","time":"2026-06-04T13:00:20Z"}"#.to_string(),
    );

    assert_eq!(event.source, "api");
    assert_eq!(event.timestamp.as_deref(), Some("2026-06-04T13:00:20Z"));
    assert_eq!(event.level, Level::Debug);
    assert_eq!(event.message, "Retrieved conversation history");
    assert_eq!(
        event.property("stream").map(|property| &property.value),
        Some(&PropertyValue::String("stdout".to_string()))
    );
    assert_eq!(
        event.property("service").map(|property| &property.value),
        Some(&PropertyValue::String("vev-mcp".to_string()))
    );
    assert_eq!(
        event
            .property("vev-mcp.messageCount")
            .map(|property| &property.value),
        Some(&PropertyValue::Number("13".to_string()))
    );
    assert!(event.property("message").is_none());
    assert!(event.property("log").is_none());
}

#[test]
fn parses_json_log_embedded_in_docker_log_field() {
    let event = LogEvent::from_line(
        0,
        r#"{"log":"{\"level\":\"info\",\"message\":\"ready\",\"service\":\"vev-mcp\"}\n","stream":"stdout","time":"2026-06-04T13:00:20Z"}"#.to_string(),
    );

    assert_eq!(event.source, "unknown");
    assert_eq!(event.timestamp.as_deref(), Some("2026-06-04T13:00:20Z"));
    assert_eq!(event.level, Level::Info);
    assert_eq!(event.message, "ready");
    assert_eq!(
        event.property("stream").map(|property| &property.value),
        Some(&PropertyValue::String("stdout".to_string()))
    );
    assert_eq!(
        event.property("service").map(|property| &property.value),
        Some(&PropertyValue::String("vev-mcp".to_string()))
    );
}

#[test]
fn parses_logfmt_style_inline_properties() {
    let event = LogEvent::from_line(
        0,
        r#"api | INFO request method=GET path="/api/items" duration_ms=42"#.to_string(),
    );

    assert_eq!(
        event.property("method").map(|property| &property.value),
        Some(&PropertyValue::Text("GET".to_string()))
    );
    assert_eq!(
        event.property("path").map(|property| &property.value),
        Some(&PropertyValue::String("/api/items".to_string()))
    );
    assert_eq!(
        event
            .property("duration_ms")
            .map(|property| &property.value),
        Some(&PropertyValue::Number("42".to_string()))
    );
}

#[test]
fn parses_structured_summary_with_timestamp_level_and_message() {
    let event = LogEvent::from_line(
        0,
        "14:06:58.892 INFO http.request GET /api/v1/inventory 200 96ms".to_string(),
    );

    assert_eq!(event.source, "unknown");
    assert_eq!(event.timestamp.as_deref(), Some("14:06:58.892"));
    assert_eq!(event.level, Level::Info);
    assert_eq!(event.message, "http.request GET /api/v1/inventory 200 96ms");
}

#[test]
fn parses_compose_prefixed_structured_summary() {
    let event = LogEvent::from_line(
        0,
        "api | 14:06:58.892 WARNING http.request failed".to_string(),
    );

    assert_eq!(event.source, "api");
    assert_eq!(event.timestamp.as_deref(), Some("14:06:58.892"));
    assert_eq!(event.level, Level::Warn);
    assert_eq!(event.message, "http.request failed");
}

#[test]
fn parses_level_first_structured_summary() {
    let event = LogEvent::from_line(0, "ERROR sync.failed retry exhausted".to_string());

    assert_eq!(event.timestamp, None);
    assert_eq!(event.level, Level::Error);
    assert_eq!(event.message, "sync.failed retry exhausted");
}

#[test]
fn parses_concurrently_padded_prefix() {
    let parsed = parse_compose_line("[backend ] ERROR failed");

    assert_eq!(parsed.source, "backend");
    assert_eq!(parsed.message, "ERROR failed");
}

#[test]
fn parses_compose_status_lines_as_sources() {
    let parsed = parse_compose_line("vev-server-rest Pulling");

    assert_eq!(parsed.source, "vev-server-rest");
    assert_eq!(parsed.message, "Pulling");
    assert!(parsed.source_explicit);
}

#[test]
fn parses_compose_error_status_lines_as_sources() {
    let parsed = parse_compose_line(
        "vev-server-rest Error response from daemon: pull access denied for image",
    );

    assert_eq!(parsed.source, "vev-server-rest");
    assert_eq!(
        parsed.message,
        "Error response from daemon: pull access denied for image"
    );
    assert!(parsed.source_explicit);
}

#[test]
fn keeps_non_status_plain_lines_unknown() {
    let parsed = parse_compose_line("vev-server-rest connected to postgres");

    assert_eq!(parsed.source, "unknown");
    assert_eq!(parsed.message, "vev-server-rest connected to postgres");
    assert!(!parsed.source_explicit);
}

#[test]
fn parses_concurrently_numeric_prefix() {
    let parsed = parse_compose_line("[0] started");

    assert_eq!(parsed.source, "0");
    assert_eq!(parsed.message, "started");
    assert!(parsed.source_explicit);
}

#[test]
fn falls_back_to_unknown_for_raw_lines() {
    let parsed = parse_compose_line("plain line with no prefix");

    assert_eq!(parsed.source, "unknown");
    assert_eq!(parsed.message, "plain line with no prefix");
    assert!(!parsed.source_explicit);
}

#[test]
fn keeps_unprefixed_vite_and_api_lines_unknown() {
    let vite = parse_compose_line("VITE v5.4.0  ready in 200 ms");
    let api = parse_compose_line("GET /api/v1/auth/me 200");

    assert_eq!(vite.source, "unknown");
    assert_eq!(vite.message, "VITE v5.4.0  ready in 200 ms");
    assert_eq!(api.source, "unknown");
    assert_eq!(api.message, "GET /api/v1/auth/me 200");
}

#[test]
fn strips_ansi_sequences_from_parsed_messages() {
    let parsed = parse_compose_line(
        "nestjs-backend | \u{1b}[32m[Nest] 32 - \u{1b}[39m05/08/2026 LOG ready",
    );

    assert_eq!(parsed.source, "nestjs-backend");
    assert_eq!(parsed.message, "[Nest] 32 - 05/08/2026 LOG ready");
}

#[test]
fn strips_cursor_control_sequences_from_parsed_messages() {
    let parsed = parse_compose_line(
        "nestjs-backend | \u{1b}[J\u{1b}[3J\u{1b}[H[\u{1b}[90m4:25:35 PM\u{1b}[0m] Starting compilation",
    );

    assert_eq!(parsed.message, "[4:25:35 PM] Starting compilation");
}

#[test]
fn strips_carriage_returns_and_other_control_chars_from_parsed_messages() {
    let parsed = parse_compose_line("api | progress 10%\rprogress 20%\u{8}\tready");

    assert_eq!(parsed.message, "progress 10%progress 20% ready");
}

#[test]
fn parses_property_block_header() {
    let header = parse_property_block_header("[14:06:58.892] INFO (#147):").unwrap();

    assert_eq!(header.timestamp, "14:06:58.892");
    assert_eq!(header.level, Level::Info);
    assert_eq!(header.source, None);
    assert!(parse_property_block_header("[frontend] VITE ready").is_none());
}

#[test]
fn parses_prefixed_property_block_header() {
    let header = parse_property_block_header("[backend] [14:06:58.892] INFO (#147):").unwrap();

    assert_eq!(header.timestamp, "14:06:58.892");
    assert_eq!(header.level, Level::Info);
    assert_eq!(header.source.as_deref(), Some("backend"));
}

#[test]
fn parses_pipe_prefixed_property_block_header_with_trimmed_source_spelling() {
    let header =
        parse_property_block_header("  api worker  | [14:06:58.892] ERROR (#147):").unwrap();

    assert_eq!(header.timestamp, "14:06:58.892");
    assert_eq!(header.level, Level::Error);
    assert_eq!(header.source.as_deref(), Some("api worker"));
}

#[test]
fn parses_colored_prefixed_property_block_header() {
    let header =
        parse_property_block_header("\u{1b}[36m[backend]\u{1b}[0m [14:06:58.892] INFO (#147):")
            .unwrap();

    assert_eq!(header.timestamp, "14:06:58.892");
    assert_eq!(header.level, Level::Info);
    assert_eq!(header.source.as_deref(), Some("backend"));
}

#[test]
fn timestamp_bracket_is_not_misclassified_as_a_source() {
    let parsed = parse_compose_line("[14:06:58.892] INFO (#147):");

    assert_eq!(parsed.source, "unknown");
    assert_eq!(parsed.message, "[14:06:58.892] INFO (#147):");
    assert!(!parsed.source_explicit);
}

#[test]
fn bracket_source_precedes_pipe_data_in_property_values() {
    let parsed = parse_compose_line("[api] value: \"left | right\"");

    assert_eq!(parsed.source, "api");
    assert_eq!(parsed.message, "value: \"left | right\"");
    assert_eq!(
        message_without_source_prefix("[api] value: \"left | right\""),
        "value: \"left | right\""
    );
}

#[test]
fn colored_bracket_source_and_message_use_the_shared_splitter() {
    let parsed =
        parse_compose_line("\u{1b}[36m[api worker ]\u{1b}[0m [14:06:58.892] WARN (#9):");
    let header = parse_property_block_header(
        "\u{1b}[36m[api worker ]\u{1b}[0m [14:06:58.892] WARN (#9):",
    )
    .unwrap();

    assert_eq!(parsed.source, "api worker");
    assert_eq!(parsed.message, "[14:06:58.892] WARN (#9):");
    assert_eq!(header.source.as_deref(), Some("api worker"));
    assert_eq!(header.timestamp, "14:06:58.892");
    assert_eq!(header.level, Level::Warn);
}

#[test]
fn parses_js_like_property_object() {
    let properties = parse_property_object(
        r#"  {
    messageKey: "http.request",
    statusCode: 200,
    durationMs: 96,
    cached: false,
    metadata: null,
    userAgent: "Mozilla/5.0 (KHTML, like Gecko)",
  }"#,
    )
    .unwrap();

    assert_eq!(properties[0].key, "messageKey");
    assert_eq!(
        properties[0].value,
        PropertyValue::String("http.request".to_string())
    );
    assert_eq!(
        properties[1].value,
        PropertyValue::Number("200".to_string())
    );
    assert_eq!(properties[2].value, PropertyValue::Number("96".to_string()));
    assert_eq!(properties[3].value, PropertyValue::Bool(false));
    assert_eq!(properties[4].value, PropertyValue::Null);
    assert_eq!(
        properties[5].value,
        PropertyValue::String("Mozilla/5.0 (KHTML, like Gecko)".to_string())
    );
}

#[test]
fn infers_common_levels_case_insensitively() {
    assert_eq!(infer_level("FATAL crash"), Level::Fatal);
    assert_eq!(infer_level("ERROR failed"), Level::Error);
    assert_eq!(infer_level("Warning: retrying"), Level::Warn);
    assert_eq!(infer_level("info: listening"), Level::Info);
    assert_eq!(
        infer_level(
            "[Nest] 32 - 05/08/2026, 4:18:15 PM LOG [NestFactory] Starting Nest application..."
        ),
        Level::Info
    );
    assert_eq!(infer_level("debug details"), Level::Debug);
    assert_eq!(infer_level("trace span"), Level::Trace);
    assert_eq!(infer_level("verbose route mapped"), Level::Trace);
}

#[test]
fn infers_unknown_without_level_tokens() {
    assert_eq!(infer_level("request completed"), Level::Unknown);
}

#[test]
fn event_construction_promotes_source_from_properties() {
    let interpreter = LogInterpreter;
    let parsed = interpreter.parse_source_line("INFO ready service=api");

    let event = interpreter.event_from_source_line(
        0,
        "INFO ready service=api".to_string(),
        parsed,
        &SourceConfig::default(),
    );

    assert_eq!(event.source, "api");
    assert_eq!(
        event.property("service").map(|property| &property.value),
        Some(&PropertyValue::Text("api".to_string()))
    );
}

#[test]
fn applying_properties_can_promote_source() {
    let interpreter = LogInterpreter;
    let parsed = interpreter.parse_source_line("INFO ready");
    let mut event = interpreter.event_from_source_line(
        0,
        "INFO ready".to_string(),
        parsed,
        &SourceConfig::default(),
    );

    interpreter.apply_properties(
        &mut event,
        vec![LogProperty {
            key: "service".to_string(),
            value: PropertyValue::String("worker".to_string()),
        }],
        &SourceConfig::default(),
    );

    assert_eq!(event.source, "worker");
}
