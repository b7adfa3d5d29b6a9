use loggle::filter::workflow::{FilterEdit, FilterWorkflow};
use loggle::filter::{
    event_contains, LogFilter, PropertyFilterId, PropertyFilterUpdate, PropertyPredicate,
};
use loggle::model::{Level, LogEvent, LogProperty, PropertyValue};

fn exact(key: &str, value: &str) -> PropertyPredicate {
    PropertyPredicate::exact(key.to_string(), value.to_string())
}

fn present(key: &str) -> PropertyPredicate {
    PropertyPredicate::present(key.to_string())
}

#[test]
fn matches_text_source_and_level_together() {
    let event = LogEvent::from_line(0, "api | ERROR database failed".to_string());
    let filter = LogFilter {
        text: Some("database".to_string()),
        source: Some("api".to_string()),
        level: Some(Level::Error),
        ..LogFilter::default()
    };

    assert!(filter.matches(&event));
}

#[test]
fn empty_text_and_source_are_not_active_filters() {
    let filter = LogFilter {
        text: Some(String::new()),
        source: Some(String::new()),
        ..LogFilter::default()
    };

    assert!(!filter.has_active_filters());
}

#[test]
fn rejects_events_that_do_not_match_all_filters() {
    let event = LogEvent::from_line(0, "web | info ready".to_string());
    let filter = LogFilter {
        text: Some("ready".to_string()),
        source: Some("api".to_string()),
        level: Some(Level::Info),
        ..LogFilter::default()
    };

    assert!(!filter.matches(&event));
}

#[test]
fn text_matching_is_case_insensitive() {
    let event = LogEvent::from_line(0, "api | ERROR failed".to_string());
    let filter = LogFilter {
        text: Some("error".to_string()),
        source: None,
        level: None,
        ..LogFilter::default()
    };

    assert!(filter.matches(&event));
}

#[test]
fn event_contains_checks_raw_source_message_and_properties() {
    let mut event = LogEvent::from_line(0, "api | INFO request completed".to_string());
    event.set_properties(vec![
        LogProperty {
            key: "tenantId".to_string(),
            value: PropertyValue::String("tenant-1".to_string()),
        },
        LogProperty {
            key: "statusCode".to_string(),
            value: PropertyValue::Number("200".to_string()),
        },
    ]);

    assert!(event_contains(&event, "|"));
    assert!(event_contains(&event, "api"));
    assert!(event_contains(&event, "request completed"));
    assert!(event_contains(&event, "tenantid"));
    assert!(event_contains(&event, "tenant-1"));
    assert!(event_contains(&event, "200"));
    assert!(!event_contains(&event, "missing"));
}

#[test]
fn source_filter_matches_concurrently_prefix() {
    let event = LogEvent::from_line(0, "[backend] INFO listening".to_string());
    let filter = LogFilter {
        text: None,
        source: Some("backend".to_string()),
        level: None,
        ..LogFilter::default()
    };

    assert!(filter.matches(&event));
}

#[test]
fn matches_included_property_exact_value() {
    let mut event = LogEvent::from_line(0, "INFO request completed".to_string());
    event.set_properties(vec![LogProperty {
        key: "tenantId".to_string(),
        value: PropertyValue::String("tenant-1".to_string()),
    }]);
    let filter = LogFilter {
        property_includes: vec![exact("tenantId", "tenant-1")],
        ..LogFilter::default()
    };

    assert!(filter.matches(&event));
}

#[test]
fn rejects_excluded_property_exact_value() {
    let mut event = LogEvent::from_line(0, "INFO request completed".to_string());
    event.set_properties(vec![LogProperty {
        key: "statusCode".to_string(),
        value: PropertyValue::Number("500".to_string()),
    }]);
    let filter = LogFilter {
        property_excludes: vec![exact("statusCode", "500")],
        ..LogFilter::default()
    };

    assert!(!filter.matches(&event));
}

#[test]
fn matches_property_existence_filters() {
    let mut event = LogEvent::from_line(0, "INFO request completed".to_string());
    event.set_properties(vec![LogProperty {
        key: "requestId".to_string(),
        value: PropertyValue::String("abc".to_string()),
    }]);
    let including = LogFilter {
        property_includes: vec![present("requestId")],
        ..LogFilter::default()
    };
    let excluding = LogFilter {
        property_excludes: vec![present("requestId")],
        ..LogFilter::default()
    };

    assert!(including.matches(&event));
    assert!(!excluding.matches(&event));
}

#[test]
fn parses_property_filter_inputs() {
    assert_eq!(
        PropertyFilterUpdate::parse("tenantId=tenant-1", false).unwrap(),
        PropertyFilterUpdate {
            exclude: false,
            predicate: exact("tenantId", "tenant-1")
        }
    );
    assert_eq!(
        PropertyFilterUpdate::parse("statusCode!=500", false).unwrap(),
        PropertyFilterUpdate {
            exclude: true,
            predicate: exact("statusCode", "500")
        }
    );
    assert_eq!(
        PropertyFilterUpdate::parse("!debug", false).unwrap(),
        PropertyFilterUpdate {
            exclude: true,
            predicate: present("debug")
        }
    );
}

#[test]
fn property_filter_summaries_format_include_and_exclude_filters() {
    let exact = exact("statusCode", "500");
    let key_only = present("debug");

    assert_eq!(exact.summary(), "statusCode=500");
    assert_eq!(key_only.summary(), "debug");
    assert_eq!(exact.exclude_summary(), "statusCode!=500");
    assert_eq!(key_only.exclude_summary(), "!debug");
    assert_eq!(exact.summary_for(true), "statusCode!=500");
}

#[test]
fn removes_and_replaces_property_filters_by_id() {
    let mut filters = LogFilter {
        property_includes: vec![
            exact("tenantId", "tenant-1"),
            present("requestId"),
        ],
        property_excludes: vec![exact("statusCode", "500")],
        ..LogFilter::default()
    };

    assert_eq!(
        filters.remove_property_filter(PropertyFilterId {
            exclude: false,
            index: 1
        }),
        Some(present("requestId"))
    );
    assert!(filters.replace_property_filter(
        PropertyFilterId {
            exclude: true,
            index: 0
        },
        PropertyFilterUpdate {
            exclude: false,
            predicate: exact("statusCode", "200")
        }
    ));

    assert_eq!(
        filters.property_includes,
        vec![
            exact("tenantId", "tenant-1"),
            exact("statusCode", "200"),
        ]
    );
    assert!(filters.property_excludes.is_empty());
}

fn property(key: &str, value: &str) -> LogProperty {
    LogProperty {
        key: key.to_string(),
        value: PropertyValue::String(value.to_string()),
    }
}

#[test]
fn applies_prompt_edits_and_remembers_previous_filters() {
    let mut workflow = FilterWorkflow::default();

    workflow.apply_prompt(FilterEdit::Text, "database", None);
    workflow.apply_prompt(FilterEdit::Level, "error", None);

    assert_eq!(workflow.filters().text.as_deref(), Some("database"));
    assert_eq!(workflow.filters().level, Some(Level::Error));
    assert_eq!(workflow.history_len(), 2);
}

#[test]
fn follows_selected_property_as_include_filter() {
    let mut workflow = FilterWorkflow::default();

    workflow.follow_property(&property("tenantId", "tenant-1"));

    assert_eq!(workflow.filters().property_includes.len(), 1);
    assert_eq!(
        workflow.filters().property_includes[0].summary(),
        "tenantId=tenant-1"
    );
}

#[test]
fn facet_source_and_level_replacements_are_undoable_and_semantic_no_ops() {
    let mut workflow = FilterWorkflow::default();
    assert!(workflow.replace_source_from_facet("API"));
    assert_eq!(workflow.history_len(), 1);
    assert!(!workflow.replace_source_from_facet("api"));
    assert_eq!(workflow.history_len(), 1);

    assert!(workflow.replace_level_from_facet(Level::Error));
    assert_eq!(workflow.history_len(), 2);
    assert!(!workflow.replace_level_from_facet(Level::Error));
    assert_eq!(workflow.history_len(), 2);

    assert!(workflow.undo());
    assert_eq!(workflow.filters().level, None);
    assert_eq!(workflow.filters().source.as_deref(), Some("API"));
}

#[test]
fn facet_property_replacement_ignores_vector_order_for_semantic_no_op() {
    let mut workflow = FilterWorkflow::default();
    workflow.filters.property_includes = vec![
        exact("region", "eu"),
        exact("tenant", "one"),
        exact("mode", "prod"),
    ];

    assert!(!workflow.replace_property_value_from_facet("tenant", "one"));
    assert_eq!(workflow.history_len(), 0);

    workflow
        .filters
        .property_excludes
        .push(exact("tenant", "two"));
    assert!(workflow.replace_property_value_from_facet("tenant", "one"));
    assert_eq!(workflow.history_len(), 1);
    assert_eq!(
        workflow
            .filters()
            .property_includes
            .iter()
            .filter(|predicate| predicate.key == "tenant")
            .collect::<Vec<_>>(),
        vec![&exact("tenant", "one")]
    );
    assert!(
        workflow
            .filters()
            .property_excludes
            .iter()
            .all(|predicate| predicate.key != "tenant")
    );
}

#[test]
fn preset_rows_summarize_saved_filters() {
    let mut workflow = FilterWorkflow::default();
    workflow.apply_prompt(FilterEdit::Text, "database", None);

    workflow.save_preset();
    let rows = workflow.filter_preset_rows("");

    assert_eq!(rows.len(), 1);
    assert_eq!(rows[0].name, "Preset 1");
    assert_eq!(rows[0].summary, "search=database");
}
