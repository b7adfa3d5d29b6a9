use std::collections::VecDeque;

use loggle::facet::{FacetGroup, FacetKind, FacetOptions, MAX_FACET_RECORD_LIMIT};
use loggle::model::{Level, SourceConfig};
use loggle::page_log::files::{
    active_log_page_file_name, active_log_page_lock_file_name, generation_log_file_name,
    is_active_log_page_file_name, is_generation_log_file_name, legacy_log_file_name, log_page_dir, log_page_registry_dir,
    loggle_state_dir, metadata_publish_file_name,
};
use loggle::page_log::query::{
    print_log_page_query, print_log_page_tail, print_log_page_tail_with_options,
    query_log_page_facets, query_log_page_records,
};
use loggle::page_log::record::{LogPageRecord, RecordValue};
use loggle::page_log::registry::{
    active_log_pages, claim_step, next_page_number, page_probe, resolve_active_log_page,
    lives_by_lock, scan_entry, scan_locked_elsewhere, scan_under_lock, ActiveLogPage, ActiveLogPageMetadata,
    ClaimStep, PageLiveness, PageLogWindow, PageProbe, ScanStep, ACTIVE_LOG_PAGE_LEASE_VERSION,
};
use loggle::page_log::replay::tail_lines;
use loggle::page_log::{
    log_filter_for_options, FacetQueryError, LogPageError, LogPageId, LogPageQueryOptions,
    LogPageTailOptions,
};

fn lines_of(input: &str) -> Vec<String> {
    input.lines().map(str::to_string).collect()
}

fn strings(items: &[&str]) -> Vec<String> {
    items.iter().map(|item| item.to_string()).collect()
}

fn text(value: &str) -> RecordValue {
    RecordValue::String(value.to_string())
}

fn property<'a>(record: &'a LogPageRecord, key: &str) -> &'a RecordValue {
    &record
        .properties
        .iter()
        .find(|property| property.key == key)
        .unwrap()
        .value
}

fn filtered_tail_lines(input: &str, options: &LogPageTailOptions) -> Vec<String> {
    let printed = print_log_page_tail_with_options(&lines_of(input), &[], options).unwrap();
    printed
        .iter()
        .flat_map(|record| record.split('\n').map(str::to_string))
        .collect()
}

fn query_records_from_input(input: &str, options: &LogPageQueryOptions) -> Vec<LogPageRecord> {
    query_log_page_records(&lines_of(input), &[], options).unwrap()
}

fn facet_group(groups: &[FacetGroup], kind: FacetKind) -> &FacetGroup {
    groups.iter().find(|group| group.facet == kind).unwrap()
}

fn test_metadata(id: &LogPageId, pid: u32, log_file: Option<&str>) -> ActiveLogPageMetadata {
    ActiveLogPageMetadata {
        lease_version: Some(ACTIVE_LOG_PAGE_LEASE_VERSION),
        id: id.as_str().to_string(),
        pid,
        started_unix_seconds: 123,
        command: "docker compose up".to_string(),
        source_fields: Vec::new(),
        log_file: log_file.map(str::to_string),
        ready: true,
    }
}

#[test]
fn log_page_id_accepts_safe_names() {
    assert_eq!(LogPageId::parse("1").unwrap().as_str(), "1");
    assert_eq!(
        LogPageId::parse("agent.api-1").unwrap().as_str(),
        "agent.api-1"
    );
}

#[test]
fn log_page_id_rejects_path_like_names() {
    assert!(LogPageId::parse("").is_err());
    assert!(LogPageId::parse("../api").is_err());
    assert!(LogPageId::parse("api/log").is_err());
}

#[test]
fn tail_lines_keeps_the_last_requested_lines() {
    let input = "one\ntwo\nthree\nfour\n";
    let lines = tail_lines(&lines_of(input), 2);

    assert_eq!(lines, vec!["three".to_string(), "four".to_string()]);
}

#[test]
fn tail_lines_allows_zero_lines() {
    let input = "one\ntwo\n";
    let lines = tail_lines(&lines_of(input), 0);

    assert!(lines.is_empty());
}

#[test]
fn filtered_tail_lines_matches_source() {
    let input = "api | one\nweb | two\napi | three\n";
    let options = LogPageTailOptions {
        line_count: 2,
        source: Some("api".to_string()),
        text: None,
        property_filters: Vec::new(),
        source_config: SourceConfig::default(),
    };

    let lines =
        filtered_tail_lines(input, &options);

    assert_eq!(
        lines,
        vec!["api | one".to_string(), "api | three".to_string()]
    );
}

#[test]
fn filtered_tail_lines_matches_property_predicates() {
    let input = "api | INFO request tenantId=tenant-1\napi | INFO request tenantId=tenant-2\nweb | INFO request tenantId=tenant-1\n";
    let options = LogPageTailOptions {
        line_count: 5,
        source: Some("api".to_string()),
        text: None,
        property_filters: vec!["tenantId=tenant-1".to_string()],
        source_config: SourceConfig::default(),
    };

    let lines =
        filtered_tail_lines(input, &options);

    assert_eq!(
        lines,
        vec!["api | INFO request tenantId=tenant-1".to_string()]
    );
}

#[test]
fn filtered_tail_lines_matches_properties_from_blocks() {
    let input = "14:06:58.892 INFO request completed\n[14:06:58.892] INFO (#1):\n  {\n    tenantId: \"tenant-1\"\n  }\n";
    let options = LogPageTailOptions {
        line_count: 5,
        source: None,
        text: None,
        property_filters: vec!["tenantId=tenant-1".to_string()],
        source_config: SourceConfig::default(),
    };

    let lines =
        filtered_tail_lines(input, &options);

    // The whole record is returned, including the folded property block, so
    // the data that matched the predicate is visible to the reader.
    assert_eq!(
        lines,
        vec![
            "14:06:58.892 INFO request completed".to_string(),
            "[14:06:58.892] INFO (#1):".to_string(),
            "  {".to_string(),
            "    tenantId: \"tenant-1\"".to_string(),
            "  }".to_string(),
        ]
    );
}

#[test]
fn filtered_tail_lines_counts_matching_records_not_lines() {
    let input =
        "api | INFO a tenantId=t1\napi | INFO b tenantId=t1\napi | INFO c tenantId=t1\n";
    let options = LogPageTailOptions {
        line_count: 2,
        source: None,
        text: None,
        property_filters: vec!["tenantId=t1".to_string()],
        source_config: SourceConfig::default(),
    };

    let lines =
        filtered_tail_lines(input, &options);

    assert_eq!(
        lines,
        vec![
            "api | INFO b tenantId=t1".to_string(),
            "api | INFO c tenantId=t1".to_string(),
        ]
    );
}

#[test]
fn filtered_tail_lines_matches_text() {
    let input = "api | INFO ready\napi | ERROR database unavailable\nweb | ERROR database unavailable\n";
    let options = LogPageTailOptions {
        line_count: 5,
        source: Some("api".to_string()),
        text: Some("database".to_string()),
        property_filters: Vec::new(),
        source_config: SourceConfig::default(),
    };

    let lines =
        filtered_tail_lines(input, &options);

    assert_eq!(lines, vec!["api | ERROR database unavailable".to_string()]);
}

#[test]
fn page_query_composes_source_text_level_and_property_predicates() {
    let input = "api | ERROR database failed tenantId=tenant-1\napi | ERROR database failed tenantId=tenant-1 skip=true\napi | INFO database failed tenantId=tenant-1\nweb | ERROR database failed tenantId=tenant-1\n";
    let mut options = LogPageQueryOptions::new(10);
    options.source = Some("api".to_string());
    options.text = Some("database".to_string());
    options.level = Level::parse("ERR");
    options.property_filters = vec!["tenantId=tenant-1".to_string(), "!skip".to_string()];
    options.source_config = SourceConfig::default();

    let filter = log_filter_for_options(&options).unwrap();
    assert_eq!(filter.level, Some(Level::Error));
    let records = query_records_from_input(input, &options);

    assert_eq!(records.len(), 1);
    assert_eq!(
        records[0].raw,
        "api | ERROR database failed tenantId=tenant-1"
    );
}

#[test]
fn structured_records_preserve_types_with_lossless_numeric_fallback() {
    let input = "api | INFO values canonical=500 leading=01 trailing=1. huge=18446744073709551616 flag=true missing=null label=\"ok\" text=bare\n";
    let records = query_records_from_input(input, &LogPageQueryOptions::new(10));

    assert_eq!(records.len(), 1);
    let record = &records[0];
    assert_eq!(record.schema_version, 1);
    assert_eq!(record.source, "api");
    assert_eq!(record.timestamp, None);
    assert_eq!(record.level, Level::Info);
    assert_eq!(*property(record, "canonical"), RecordValue::Number("500".to_string()));
    assert_eq!(*property(record, "leading"), text("01"));
    assert_eq!(*property(record, "trailing"), text("1."));
    assert_eq!(*property(record, "huge"), text("18446744073709551616"));
    assert_eq!(*property(record, "flag"), RecordValue::Bool(true));
    assert_eq!(*property(record, "missing"), RecordValue::Null);
    assert_eq!(*property(record, "label"), text("ok"));
    assert_eq!(*property(record, "text"), text("bare"));
}

#[test]
fn structured_record_has_canonical_level_and_complete_multiline_raw() {
    let input = "api | 14:06:58.892 ERROR request failed\n[14:06:58.892] ERROR (#1):\n  {\n    retryable: true,\n    statusCode: 500,\n  }\n";
    let records = query_records_from_input(input, &LogPageQueryOptions::new(10));

    assert_eq!(records.len(), 1);
    assert_eq!(records[0].timestamp.as_deref(), Some("14:06:58.892"));
    assert_eq!(records[0].level, Level::Error);
    assert_eq!(records[0].message, "request failed");
    assert_eq!(*property(&records[0], "retryable"), RecordValue::Bool(true));
    assert_eq!(*property(&records[0], "statusCode"), RecordValue::Number("500".to_string()));
    assert_eq!(records[0].raw, input.trim_end());

    assert_eq!(records[0].level.as_str(), "error");
}

#[test]
fn structured_record_uses_first_duplicate_property() {
    let input = "api | INFO request tenantId=first tenantId=second\n";
    let records = query_records_from_input(input, &LogPageQueryOptions::new(10));

    assert_eq!(*property(&records[0], "tenantId"), text("first"));
}

#[test]
fn structured_query_returns_last_matching_records_in_original_order() {
    let input =
        "api | ERROR first\napi | INFO ignored\napi | ERROR second\napi | ERROR third\n";
    let mut options = LogPageQueryOptions::new(2);
    options.level = Some(Level::Error);

    let records = query_records_from_input(input, &options);

    assert_eq!(
        records
            .iter()
            .map(|record| record.message.as_str())
            .collect::<Vec<_>>(),
        vec!["second", "third"]
    );
}

#[test]
fn structured_query_returns_empty_for_no_matches() {
    let input = "api | INFO ready\n";
    let mut options = LogPageQueryOptions::new(10);
    options.level = Some(Level::Error);

    assert!(query_records_from_input(input, &options).is_empty());
}

#[test]
fn filtered_tail_lines_includes_property_block_that_precedes_summary() {
    let input = "[api] [21:05:37.312] INFO (#140):\n[api] {\n[api] requestId: \"abc-123\",\n[api] statusCode: 200,\n[api] }\n[api] 21:05:37.312 INFO http.request ok\n";
    let options = LogPageTailOptions {
        line_count: 5,
        source: None,
        text: None,
        property_filters: vec!["requestId=abc-123".to_string()],
        source_config: SourceConfig::default(),
    };

    let lines =
        filtered_tail_lines(input, &options);

    assert_eq!(
        lines,
        vec![
            "[api] [21:05:37.312] INFO (#140):".to_string(),
            "[api] {".to_string(),
            "[api] requestId: \"abc-123\",".to_string(),
            "[api] statusCode: 200,".to_string(),
            "[api] }".to_string(),
            "[api] 21:05:37.312 INFO http.request ok".to_string(),
        ]
    );
}

#[test]
fn vev_compose_fixture_replays_buildkit_and_status_filters() {
    let options = LogPageTailOptions {
        line_count: 10,
        source: Some("vev-statistics".to_string()),
        text: Some("npm ci".to_string()),
        property_filters: Vec::new(),
        source_config: SourceConfig::default(),
    };

    let input = "vev-statistics Pulling\n#34 [vev-mcp base 5/7] RUN npm ci\n#35 [vev-statistics base 5/7] RUN --mount=type=secret,id=NODE_AUTH_TOKEN sh -c 'npm ci'\n#34 0.100 npm ci\n#35 0.531 npm ci\n#35 DONE 1.4s\n";
    let lines = filtered_tail_lines(input, &options);

    assert_eq!(
        lines,
        vec![
            "#35 [vev-statistics base 5/7] RUN --mount=type=secret,id=NODE_AUTH_TOKEN sh -c 'npm ci'".to_string(),
            "#35 0.531 npm ci".to_string(),
        ]
    );
}

#[test]
fn facet_query_validates_record_window_before_scanning() {
    for value in [0, MAX_FACET_RECORD_LIMIT + 1] {
        let error = query_log_page_facets(
            &[],
            &[],
            &LogPageQueryOptions::new(value),
            &FacetOptions::default(),
        )
        .unwrap_err();
        assert!(matches!(
            error,
            FacetQueryError::InvalidRecordWindow { value: actual } if actual == value
        ));
    }

    let error = query_log_page_facets(
        &[],
        &[],
        &LogPageQueryOptions::new(0),
        &FacetOptions::default(),
    )
    .unwrap_err();
    assert_eq!(
        error.message(),
        "facet record window 0 is outside 1..=100000"
    );
}

#[test]
fn facet_query_inherits_and_overrides_session_source_fields() {
    let lines = strings(&["INFO ready reader=cli tenant=server"]);
    let session_fields = strings(&["tenant"]);

    let mut inherited = LogPageQueryOptions::new(10);
    inherited.source = Some("server".to_string());
    let inherited_groups =
        query_log_page_facets(&lines, &session_fields, &inherited, &FacetOptions::default())
            .unwrap();
    assert_eq!(
        facet_group(&inherited_groups, FacetKind::PropertyKey).matched_records,
        1
    );

    let mut overridden = LogPageQueryOptions::new(10);
    overridden.source = Some("cli".to_string());
    overridden.source_config = SourceConfig::with_fields(&strings(&["reader"]));
    let overridden_groups =
        query_log_page_facets(&lines, &session_fields, &overridden, &FacetOptions::default())
            .unwrap();
    assert_eq!(
        facet_group(&overridden_groups, FacetKind::PropertyKey).matched_records,
        1
    );
}

#[test]
fn facet_query_fixes_newest_logical_window_before_filters() {
    let lines = strings(&[
        "old | ERROR wanted tenant=t1",
        "web | INFO ignored tenant=t2",
        "api | ERROR wanted tenant=t1",
    ]);
    let mut options = LogPageQueryOptions::new(2);
    options.text = Some("wanted".to_string());
    let groups = query_log_page_facets(&lines, &[], &options, &FacetOptions::default()).unwrap();
    let source = facet_group(&groups, FacetKind::Source);
    assert_eq!(source.available_records, 3);
    assert_eq!(source.window_records, 2);
    assert!(source.window_truncated);
    assert_eq!(source.matched_records, 1);
    assert_eq!(source.buckets[0].value, "api");
}

#[test]
fn facet_query_composes_every_query_filter_dimension() {
    let lines = strings(&[
        "api | ERROR database tenant=t1 region=eu",
        "web | ERROR database tenant=t1 region=eu",
        "api | INFO database tenant=t1 region=eu",
        "api | ERROR other tenant=t1 region=eu",
        "api | ERROR database tenant=t2 region=eu",
        "api | ERROR database tenant=t1 region=us",
    ]);
    let mut options = LogPageQueryOptions::new(100);
    options.source = Some("api".to_string());
    options.text = Some("database".to_string());
    options.level = Some(Level::Error);
    options.property_filters = vec!["tenant=t1".to_string(), "region=eu".to_string()];
    let facet_options = FacetOptions::new(20, Some("tenant".to_string())).unwrap();
    let groups = query_log_page_facets(&lines, &[], &options, &facet_options).unwrap();

    assert!(groups.iter().all(|group| group.matched_records == 1));
    assert_eq!(facet_group(&groups, FacetKind::Source).eligible_records, 2);
    assert_eq!(facet_group(&groups, FacetKind::Level).eligible_records, 2);
    assert_eq!(
        facet_group(&groups, FacetKind::PropertyValue).eligible_records,
        2
    );
}

#[test]
fn public_tail_options_retain_the_legacy_struct_literal_shape() {
    let options = LogPageTailOptions {
        line_count: 25,
        source: Some("api".to_string()),
        text: Some("database".to_string()),
        property_filters: vec!["tenantId=tenant-1".to_string()],
        source_config: SourceConfig::with_fields(&strings(&["service"])),
    };

    assert_eq!(options.line_count, 25);
    assert_eq!(options.source.as_deref(), Some("api"));
    assert_eq!(options.text.as_deref(), Some("database"));
    assert_eq!(
        options.property_filters,
        vec!["tenantId=tenant-1".to_string()]
    );
    assert_eq!(
        options.source_config,
        SourceConfig::with_fields(&strings(&["service"]))
    );
}

#[test]
fn public_query_options_use_constructor_and_field_updates() {
    let mut options = LogPageQueryOptions::new(25);
    options.source = Some("api".to_string());
    options.text = Some("database".to_string());
    options.level = Some(Level::Error);
    options.property_filters = vec!["tenantId=tenant-1".to_string()];
    options.source_config = SourceConfig::with_fields(&strings(&["service"]));

    assert_eq!(options.line_count, 25);
    assert_eq!(options.source.as_deref(), Some("api"));
    assert_eq!(options.text.as_deref(), Some("database"));
    assert_eq!(options.level, Some(Level::Error));
    assert_eq!(
        options.property_filters,
        vec!["tenantId=tenant-1".to_string()]
    );
    assert_eq!(
        options.source_config,
        SourceConfig::with_fields(&strings(&["service"]))
    );
}

#[test]
fn a_page_without_a_lease_version_goes_by_its_process() {
    let metadata = ActiveLogPageMetadata {
        lease_version: None,
        id: "api".to_string(),
        pid: 42,
        started_unix_seconds: 123,
        command: "docker compose up".to_string(),
        source_fields: Vec::new(),
        log_file: None,
        ready: true,
    };

    assert!(!metadata.uses_stable_lock(true));
    assert_eq!(
        metadata.public_page(),
        ActiveLogPage {
            id: "api".to_string(),
            pid: 42,
            started_unix_seconds: 123,
            command: "docker compose up".to_string(),
        }
    );
}

#[test]
fn default_unfiltered_log_tail_keeps_physical_line_semantics() {
    let lines = lines_of("api | ERROR request failed\n{\nstatusCode: 500\n}\n");
    assert_eq!(
        print_log_page_query(&lines, &[], &LogPageQueryOptions::new(2)).unwrap(),
        strings(&["statusCode: 500", "}"])
    );
    assert_eq!(
        print_log_page_tail(&lines, 2),
        strings(&["statusCode: 500", "}"])
    );
}

#[test]
fn unfiltered_jsonl_tail_counts_logical_records() {
    let records = query_records_from_input(
        "api | 14:06:58.892 INFO first\n[14:06:58.892] INFO (#1):\n  {\n    statusCode: 200,\n  }\napi | INFO second\n",
        &LogPageQueryOptions::new(1),
    );
    assert_eq!(records.len(), 1);
    assert_eq!(records[0].message, "second");
    assert_eq!(records[0].raw, "api | INFO second");
}

#[test]
fn level_filtered_jsonl_returns_only_matching_logical_records() {
    let mut options = LogPageQueryOptions::new(10);
    options.level = Some(Level::Error);
    let records = query_records_from_input(
        "api | INFO ready\napi | ERROR first failure\nweb | ERROR second failure\n",
        &options,
    );
    assert_eq!(records.len(), 2);
    assert!(records.iter().all(|record| record.level == Level::Error));
    assert_eq!(records[0].message, "first failure");
    assert_eq!(records[1].message, "second failure");
}

#[test]
fn level_filtered_raw_uses_the_structured_query_path() {
    let mut options = LogPageQueryOptions::new(1);
    options.level = Some(Level::Error);
    let lines =
        lines_of("api | ERROR first failure\napi | INFO ready\napi | ERROR second failure\n");
    assert_eq!(
        print_log_page_query(&lines, &[], &options).unwrap(),
        strings(&["api | ERROR second failure"])
    );
}

#[test]
fn jsonl_preserves_typed_properties_and_multiline_raw_on_one_line() {
    let log = "api | 14:06:58.892 ERROR request failed\n[14:06:58.892] ERROR (#1):\n  {\n    retryable: true,\n    statusCode: 500,\n  }\n";
    let records = query_records_from_input(log, &LogPageQueryOptions::new(100));

    assert_eq!(records.len(), 1);
    let record = &records[0];
    assert_eq!(record.schema_version, 1);
    assert_eq!(record.timestamp.as_deref(), Some("14:06:58.892"));
    assert_eq!(*property(record, "retryable"), RecordValue::Bool(true));
    assert_eq!(
        *property(record, "statusCode"),
        RecordValue::Number("500".to_string())
    );
    assert_eq!(record.raw, log.trim_end());
}

#[test]
fn combined_agent_filters_match_the_same_event() {
    let mut options = LogPageQueryOptions::new(100);
    options.source = Some("api".to_string());
    options.text = Some("database".to_string());
    options.level = Level::parse("err");
    options.property_filters = strings(&["tenantId=tenant-1", "retryable=true", "!skip"]);
    let records = query_records_from_input(
        "api | ERROR database failed tenantId=tenant-1 retryable=true\napi | ERROR database failed tenantId=tenant-1 retryable=true skip=true\nweb | ERROR database failed tenantId=tenant-1 retryable=true\napi | INFO database failed tenantId=tenant-1 retryable=true\n",
        &options,
    );
    assert_eq!(records.len(), 1);
    assert_eq!(records[0].source, "api");
    assert_eq!(records[0].level, Level::Error);
    assert_eq!(*property(&records[0], "tenantId"), text("tenant-1"));
}

#[test]
fn no_matching_logs_are_a_silent_success() {
    let mut options = LogPageQueryOptions::new(100);
    options.level = Some(Level::Fatal);
    assert!(query_records_from_input("api | INFO ready\n", &options).is_empty());
}

#[test]
fn ids_say_what_is_wrong_with_them() {
    let long = "x".repeat(129);
    for (input, message) in [
        ("  ", "log page id must not be empty"),
        (long.as_str(), "log page id must be at most 128 characters"),
        (".", "log page id must not be . or .."),
        (
            "a b",
            "log page id may only contain letters, numbers, '.', '_' and '-'",
        ),
    ] {
        assert_eq!(LogPageId::parse(input).unwrap_err().message(), message);
    }
    assert_eq!(LogPageId::parse(" api ").unwrap().as_str(), "api");
    assert_eq!(LogPageId::numbered(12).as_str(), "12");
}

#[test]
fn an_empty_condition_is_an_error_of_the_question() {
    let mut options = LogPageQueryOptions::new(2);
    options.property_filters = strings(&["="]);
    let error = log_filter_for_options(&options).unwrap_err();
    assert_eq!(error, LogPageError::InvalidPropertyFilter("=".to_string()));
    assert_eq!(
        query_log_page_facets(&[], &[], &options, &FacetOptions::default()).unwrap_err(),
        FacetQueryError::Page(LogPageError::InvalidPropertyFilter("=".to_string()))
    );
}

#[test]
fn errors_of_pages_name_what_they_are_about() {
    let id = LogPageId::parse("api").unwrap();
    let missing = LogPageError::MissingPage {
        id: id.clone(),
        path: "/pages/api.log".to_string(),
    };
    assert!(missing.message().contains("api"));
    assert!(missing.message().contains("/pages/api.log"));
    assert!(LogPageError::ActivePageIdInUse(id).message().contains("api"));
    let io = LogPageError::Io {
        action: "open log page",
        path: "/pages/api.log".to_string(),
        reason: "denied".to_string(),
    };
    assert!(io.message().contains("/pages/api.log"));
    assert!(io.message().contains("denied"));
    assert!(LogPageError::Output("closed".to_string())
        .message()
        .contains("closed"));
}

#[test]
fn file_names_come_from_the_id() {
    let id = LogPageId::parse("api").unwrap();
    assert_eq!(legacy_log_file_name(&id), "api.log");
    assert_eq!(active_log_page_file_name(&id), "api.json");
    assert_eq!(active_log_page_lock_file_name(&id), "api.lock");
    assert!(is_active_log_page_file_name("api.json"));
    assert!(is_active_log_page_file_name("..json"));
    assert!(!is_active_log_page_file_name(".json"));
    assert!(!is_active_log_page_file_name("api.lock"));
    assert!(!is_active_log_page_file_name(".api.json.42.3.tmp"));
    let generation = generation_log_file_name(&id, 42, 7, 0);
    assert_eq!(generation, "api.42.7.0.log");
    assert!(is_generation_log_file_name(&id, &generation));
    assert!(!is_generation_log_file_name(&id, "api/../x.log"));
    assert!(!is_generation_log_file_name(&id, "web.42.7.0.log"));
    assert!(!is_generation_log_file_name(&id, "api.42"));
    assert_eq!(
        metadata_publish_file_name("api.json", 42, 3),
        ".api.json.42.3.tmp"
    );
}

#[test]
fn pages_are_kept_below_the_state_directory() {
    let set = |value: &str| Some(value.to_string());
    let state = loggle_state_dir(&set("/state"), &set("/home/max"), "/tmp");
    assert_eq!(state, "/state/loggle");
    assert_eq!(
        loggle_state_dir(&set(""), &set("/home/max"), "/tmp"),
        "/home/max/.local/state/loggle"
    );
    assert_eq!(loggle_state_dir(&None, &None, "/tmp"), "/tmp/loggle");
    assert_eq!(log_page_dir(&state), "/state/loggle/pages");
    assert_eq!(
        log_page_registry_dir(&state),
        "/state/loggle/active-pages"
    );
}

#[test]
fn a_page_is_found_while_its_lock_is_held() {
    let id = LogPageId::parse("api").unwrap();
    let metadata = || test_metadata(&id, 42, Some("api.42.7.0.log"));
    assert_eq!(page_probe(&id, &None, true), PageProbe::Missing);
    assert_eq!(page_probe(&id, &Some(metadata()), true), PageProbe::Lock);
    assert_eq!(page_probe(&id, &Some(metadata()), false), PageProbe::Process);
    assert_eq!(
        resolve_active_log_page(
            &id,
            &Some(metadata()),
            &PageLiveness::LockHeld(Some(metadata())),
            true
        ),
        Some("api.42.7.0.log".to_string())
    );
    assert_eq!(
        resolve_active_log_page(
            &id,
            &Some(metadata()),
            &PageLiveness::LockHeld(Some(test_metadata(&id, 43, Some("api.42.7.0.log")))),
            true
        ),
        None
    );
    assert_eq!(
        resolve_active_log_page(&id, &Some(metadata()), &PageLiveness::LockFree, true),
        None
    );
    assert_eq!(
        resolve_active_log_page(&id, &Some(metadata()), &PageLiveness::Gone, false),
        None
    );
    assert_eq!(
        resolve_active_log_page(
            &id,
            &Some(test_metadata(&id, 42, Some("../secret.log"))),
            &PageLiveness::Running,
            false
        ),
        None
    );
}

#[test]
fn listing_takes_living_pages_and_reaps_stale_ones() {
    let id = LogPageId::parse("api").unwrap();
    let metadata = || test_metadata(&id, 42, Some("api.42.7.0.log"));
    assert_eq!(scan_entry("api.json", &None, true, true), ScanStep::Skip);
    assert_eq!(
        scan_entry("web.json", &Some(metadata()), true, true),
        ScanStep::Skip
    );
    assert_eq!(
        scan_entry("api.json", &Some(metadata()), true, true),
        ScanStep::TryLock(id.clone())
    );
    assert_eq!(
        scan_entry("api.json", &Some(metadata()), true, false),
        ScanStep::List(metadata().public_page())
    );
    assert_eq!(
        scan_locked_elsewhere(&metadata(), &Some(metadata()), true),
        ScanStep::List(metadata().public_page())
    );
    assert_eq!(
        scan_locked_elsewhere(&metadata(), &None, true),
        ScanStep::Skip
    );
    assert_eq!(
        scan_under_lock(&id, &None, false, true),
        ScanStep::RemoveInvalid
    );
    let other = LogPageId::parse("web").unwrap();
    assert_eq!(
        scan_under_lock(&other, &Some(metadata()), false, true),
        ScanStep::RemoveMismatched
    );
    assert_eq!(
        scan_under_lock(&id, &Some(metadata()), true, true),
        ScanStep::Reap(Some("api.42.7.0.log".to_string()))
    );
    let mut pending = metadata();
    pending.ready = false;
    assert!(lives_by_lock(&metadata(), true));
    assert!(!lives_by_lock(&metadata(), false));
    assert!(!lives_by_lock(&pending, true));
    assert_eq!(
        scan_entry("api.json", &Some(pending), true, false),
        ScanStep::Skip
    );
}

#[test]
fn a_claim_respects_a_living_page() {
    let id = LogPageId::parse("api").unwrap();
    let metadata = || test_metadata(&id, 42, Some("api.42.7.0.log"));
    assert_eq!(
        claim_step(&id, &Some(metadata()), true, false),
        ClaimStep::InUse
    );
    assert_eq!(
        claim_step(&id, &Some(metadata()), true, true),
        ClaimStep::Reap(Some("api.42.7.0.log".to_string()))
    );
    assert_eq!(claim_step(&id, &None, true, true), ClaimStep::RemoveInvalid);
    let other = LogPageId::parse("web").unwrap();
    assert_eq!(
        claim_step(&other, &Some(metadata()), true, true),
        ClaimStep::RemoveMismatched
    );
    let claimed = ActiveLogPageMetadata::pending(
        &id,
        42,
        123,
        "docker compose up",
        &SourceConfig::default(),
        "api.42.7.0.log".to_string(),
    );
    assert!(!claimed.ready);
    assert_eq!(claimed.lease_version, Some(ACTIVE_LOG_PAGE_LEASE_VERSION));
}

#[test]
fn pages_are_ordered_and_numbered() {
    let page = |id: &str| ActiveLogPage {
        id: id.to_string(),
        pid: 42,
        started_unix_seconds: 123,
        command: "run".to_string(),
    };
    let pages: VecDeque<ActiveLogPage> =
        [page("web"), page("2"), page("1"), page("10")].into_iter().collect();
    let pages = active_log_pages(pages);
    let ids: Vec<&str> = pages.iter().map(|page| page.id.as_str()).collect();
    assert_eq!(ids, ["1", "10", "2", "web"]);
    assert_eq!(next_page_number(&pages, 0), Some(3));
    assert_eq!(next_page_number(&pages, 9), Some(11));
    assert_eq!(next_page_number(&pages, u64::MAX), None);
}

#[test]
fn a_full_log_is_written_anew() {
    let mut window = PageLogWindow::new(2);
    assert_eq!(
        [
            window.record_line(),
            window.record_line(),
            window.record_line(),
            window.record_line()
        ],
        [false, false, false, true]
    );
    window.compact(2);
    assert!(!window.record_line());
    let mut unbounded = PageLogWindow::new(0);
    assert!(!unbounded.record_line());
}

#[test]
fn pages_with_one_id_stay_in_their_order() {
    let page = |id: &str, pid: u32| ActiveLogPage {
        id: id.to_string(),
        pid,
        started_unix_seconds: 123,
        command: "run".to_string(),
    };
    let pages: VecDeque<ActiveLogPage> =
        [page("b", 1), page("a", 2), page("b", 3), page("a", 4), page("b", 5)]
            .into_iter()
            .collect();
    let pids: Vec<u32> = active_log_pages(pages).iter().map(|page| page.pid).collect();
    assert_eq!(pids, [2, 4, 1, 3, 5]);
}
