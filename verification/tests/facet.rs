use loggle::facet::escape::escape_facet_text;
use loggle::facet::{
    aggregate_facets, FacetGroup, FacetKind, FacetOptions, FacetOptionsError, FacetValueType,
    DEFAULT_FACET_BUCKET_LIMIT, MAX_FACET_BUCKET_LIMIT,
};
use loggle::filter::{LogFilter, PropertyFilterUpdate, PropertyPredicate};
use loggle::model::{Level, LogEvent, LogProperty, PropertyValue};

fn exact(key: &str, value: &str) -> PropertyPredicate {
    PropertyPredicate::exact(key.to_string(), value.to_string())
}

fn refs(events: &[LogEvent]) -> Vec<&LogEvent> {
    events.iter().collect()
}

fn event(
    sequence: u64,
    source: &str,
    level: Level,
    message: &str,
    properties: Vec<(&str, PropertyValue)>,
) -> LogEvent {
    LogEvent {
        sequence,
        source: source.to_string(),
        timestamp: None,
        level,
        raw: message.to_string(),
        message: message.to_string(),
        properties: properties
            .into_iter()
            .map(|(key, value)| LogProperty {
                key: key.to_string(),
                value,
            })
            .collect(),
    }
}

fn options(limit: usize, key: Option<&str>) -> FacetOptions {
    FacetOptions::new(limit, key.map(str::to_string)).unwrap()
}

fn group(groups: &[FacetGroup], kind: FacetKind) -> &FacetGroup {
    groups.iter().find(|group| group.facet == kind).unwrap()
}

#[test]
fn options_validate_bounds_and_keys() {
    let defaults = FacetOptions::default();
    assert_eq!(defaults.bucket_limit(), DEFAULT_FACET_BUCKET_LIMIT);
    assert_eq!(defaults.property_key(), None);
    assert!(matches!(
        FacetOptions::new(0, None),
        Err(FacetOptionsError::InvalidBucketLimit { value: 0 })
    ));
    assert!(matches!(
        FacetOptions::new(MAX_FACET_BUCKET_LIMIT + 1, None),
        Err(FacetOptionsError::InvalidBucketLimit { .. })
    ));
    assert_eq!(
        FacetOptions::new(1, Some("  ".to_string())),
        Err(FacetOptionsError::EmptyPropertyKey)
    );
    let configured = options(7, Some("tenantId"));
    assert_eq!(configured.bucket_limit(), 7);
    assert_eq!(configured.property_key(), Some("tenantId"));
}

#[test]
fn fixes_newest_window_before_filtering() {
    let events = [
        event(0, "old", Level::Error, "match", vec![]),
        event(1, "new", Level::Info, "ignore", vec![]),
    ];
    let filter = LogFilter {
        text: Some("match".to_string()),
        ..LogFilter::default()
    };

    let groups = aggregate_facets(&refs(&events), 1, &filter, &FacetOptions::default());
    assert_eq!(group(&groups, FacetKind::Source).available_records, 2);
    assert_eq!(group(&groups, FacetKind::Source).window_records, 1);
    assert!(group(&groups, FacetKind::Source).window_truncated);
    assert_eq!(group(&groups, FacetKind::Source).matched_records, 0);
    assert!(group(&groups, FacetKind::Source).buckets.is_empty());
}

#[test]
fn applies_each_self_exclusion_while_retaining_other_filters() {
    let events = [
        event(
            0,
            "api",
            Level::Error,
            "wanted",
            vec![("tenant", PropertyValue::String("one".into()))],
        ),
        event(
            1,
            "web",
            Level::Error,
            "wanted",
            vec![("tenant", PropertyValue::String("one".into()))],
        ),
        event(
            2,
            "api",
            Level::Info,
            "wanted",
            vec![("tenant", PropertyValue::String("one".into()))],
        ),
        event(
            3,
            "api",
            Level::Error,
            "wanted",
            vec![("tenant", PropertyValue::String("two".into()))],
        ),
        event(
            4,
            "api",
            Level::Error,
            "other",
            vec![("tenant", PropertyValue::String("one".into()))],
        ),
    ];
    let filter = LogFilter {
        text: Some("wanted".into()),
        source: Some("api".into()),
        level: Some(Level::Error),
        property_includes: vec![exact("tenant", "one")],
        ..LogFilter::default()
    };
    let groups = aggregate_facets(&refs(&events), 100, &filter, &options(20, Some("tenant")));

    assert_eq!(group(&groups, FacetKind::Source).eligible_records, 2);
    assert_eq!(group(&groups, FacetKind::Level).eligible_records, 2);
    assert_eq!(group(&groups, FacetKind::PropertyKey).eligible_records, 1);
    assert_eq!(group(&groups, FacetKind::PropertyValue).eligible_records, 2);
    assert_eq!(group(&groups, FacetKind::Source).buckets.len(), 2);
    assert_eq!(group(&groups, FacetKind::Level).buckets.len(), 2);
    assert_eq!(group(&groups, FacetKind::PropertyValue).buckets.len(), 2);
}

#[test]
fn counts_duplicate_keys_once_and_uses_first_value() {
    let events = [event(
        0,
        "api",
        Level::Info,
        "row",
        vec![
            ("tenant", PropertyValue::String("first".into())),
            ("tenant", PropertyValue::String("second".into())),
        ],
    )];
    let groups = aggregate_facets(
        &refs(&events),
        100,
        &LogFilter::default(),
        &options(20, Some("tenant")),
    );

    assert_eq!(group(&groups, FacetKind::PropertyKey).buckets[0].count, 1);
    assert_eq!(group(&groups, FacetKind::PropertyValue).buckets.len(), 1);
    assert_eq!(
        group(&groups, FacetKind::PropertyValue).buckets[0].value,
        "first"
    );
}

#[test]
fn groups_sources_case_insensitively_and_property_keys_exactly() {
    let events = [
        event(
            0,
            "API",
            Level::Info,
            "one",
            vec![("Tenant", PropertyValue::String("one".into()))],
        ),
        event(
            1,
            "api",
            Level::Info,
            "two",
            vec![("tenant", PropertyValue::String("two".into()))],
        ),
    ];
    let groups = aggregate_facets(
        &refs(&events),
        100,
        &LogFilter::default(),
        &options(20, None),
    );
    assert_eq!(group(&groups, FacetKind::Source).buckets[0].value, "api");
    assert_eq!(group(&groups, FacetKind::Source).buckets[0].count, 2);
    assert_eq!(
        group(&groups, FacetKind::PropertyKey)
            .buckets
            .iter()
            .map(|bucket| bucket.value.as_str())
            .collect::<Vec<_>>(),
        vec!["Tenant", "tenant"]
    );
}

#[test]
fn reports_all_types_for_display_collisions_in_stable_order() {
    let events = [
        event(
            0,
            "a",
            Level::Info,
            "",
            vec![("v", PropertyValue::String("1".into()))],
        ),
        event(
            1,
            "a",
            Level::Info,
            "",
            vec![("v", PropertyValue::Number("1".into()))],
        ),
        event(
            2,
            "a",
            Level::Info,
            "",
            vec![("v", PropertyValue::Text("1".into()))],
        ),
        event(
            3,
            "a",
            Level::Info,
            "",
            vec![("v", PropertyValue::Bool(true))],
        ),
        event(
            4,
            "a",
            Level::Info,
            "",
            vec![("v", PropertyValue::String("true".into()))],
        ),
        event(5, "a", Level::Info, "", vec![("v", PropertyValue::Null)]),
        event(
            6,
            "a",
            Level::Info,
            "",
            vec![("v", PropertyValue::Text("null".into()))],
        ),
    ];
    let groups = aggregate_facets(
        &refs(&events),
        100,
        &LogFilter::default(),
        &options(20, Some("v")),
    );
    let values = &group(&groups, FacetKind::PropertyValue).buckets;
    assert_eq!(values[0].value, "1");
    assert_eq!(
        values[0].value_types,
        vec![
            FacetValueType::String,
            FacetValueType::Number,
            FacetValueType::Text
        ]
    );
    assert_eq!(
        values[1].value_types,
        vec![FacetValueType::Null, FacetValueType::Text]
    );
    assert_eq!(
        values[2].value_types,
        vec![FacetValueType::String, FacetValueType::Boolean]
    );
}

#[test]
fn sorts_ties_and_levels_deterministically_and_discloses_bucket_truncation() {
    let events = [
        event(0, "z", Level::Info, "", vec![]),
        event(1, "a", Level::Trace, "", vec![]),
        event(2, "z", Level::Fatal, "", vec![]),
        event(3, "a", Level::Error, "", vec![]),
    ];
    let groups = aggregate_facets(&refs(&events), 100, &LogFilter::default(), &options(1, None));
    let source = group(&groups, FacetKind::Source);
    assert_eq!(source.total_buckets, 2);
    assert!(source.truncated);
    assert_eq!(source.buckets[0].value, "a");
    let levels = group(&groups, FacetKind::Level);
    assert_eq!(levels.total_buckets, 4);
    assert!(levels.truncated);
    assert_eq!(levels.buckets[0].value, "fatal");
}

#[test]
fn emits_empty_requested_groups() {
    let events = Vec::<LogEvent>::new();
    let groups = aggregate_facets(
        &refs(&events),
        100,
        &LogFilter::default(),
        &options(20, Some("tenant")),
    );
    assert_eq!(groups.len(), 4);
    assert!(groups.iter().all(|group| group.buckets.is_empty()));
    assert!(groups.iter().all(|group| group.available_records == 0));
}

#[test]
fn escaping_distinguishes_literal_sequences_and_controls() {
    assert_eq!(escape_facet_text(r"literal\n"), r"literal\\n");
    assert_eq!(escape_facet_text("actual\n"), r"actual\n");
    assert_eq!(escape_facet_text("a\tb\rc"), r"a\tb\rc");
    assert_eq!(escape_facet_text("control\u{0007}"), r"control\u{0007}");
}

#[test]
fn property_value_self_exclusion_retains_other_property_predicates() {
    let events = [
        event(
            0,
            "api",
            Level::Info,
            "",
            vec![
                ("tenant", PropertyValue::String("one".into())),
                ("region", PropertyValue::String("eu".into())),
            ],
        ),
        event(
            1,
            "api",
            Level::Info,
            "",
            vec![
                ("tenant", PropertyValue::String("two".into())),
                ("region", PropertyValue::String("us".into())),
            ],
        ),
    ];
    let mut filter = LogFilter::default();
    filter.add_property_filter(PropertyFilterUpdate {
        exclude: false,
        predicate: exact("tenant", "one"),
    });
    filter.add_property_filter(PropertyFilterUpdate {
        exclude: false,
        predicate: exact("region", "eu"),
    });
    let groups = aggregate_facets(&refs(&events), 100, &filter, &options(20, Some("tenant")));
    let values = group(&groups, FacetKind::PropertyValue);
    assert_eq!(values.eligible_records, 1);
    assert_eq!(values.buckets[0].value, "one");
}
