use loggle::filter::{LogFilter, PropertyPredicate};
use loggle::model::{Level, LogEvent, LogProperty, PropertyValue};
use loggle::ui::dialog::{render_selectable_rows, visible_window, SelectableListItem};
use loggle::ui::row::{
    event_height, render_event, render_header, DisplayFieldColumn, RowSpan, SpanRole,
    BASE_PREFIX_WIDTH,
};
use loggle::ui::status::{property_filters_summary, status_segments};
use loggle::ui::text::{compact_whitespace, truncate_tail};
use ratatui::backend::TestBackend;
use ratatui::text::{Line, Span};
use ratatui::widgets::Paragraph;
use ratatui::Terminal;

fn exact(key: &str, value: &str) -> PropertyPredicate {
    PropertyPredicate::exact(key.to_string(), value.to_string())
}

fn present(key: &str) -> PropertyPredicate {
    PropertyPredicate::present(key.to_string())
}

fn row_text(row: Vec<Vec<RowSpan>>) -> String {
    row.into_iter().flatten().map(|span| span.text).collect()
}

fn highlighted(row: Vec<Vec<RowSpan>>) -> Vec<String> {
    row.into_iter()
        .flatten()
        .filter(|span| span.role == SpanRole::Highlight)
        .map(|span| span.text)
        .collect()
}

#[test]
fn display_message_compacts_nestjs_alignment_spacing() {
    let message =
        "[Nest]      32  - 05/08/2026,      4:18:15 PM          LOG      [InstanceLoader]";

    assert_eq!(
        compact_whitespace(message),
        "[Nest] 32 - 05/08/2026, 4:18:15 PM LOG [InstanceLoader]"
    );
}

#[test]
fn default_row_rendering_is_unchanged_without_display_fields() {
    let mut event = LogEvent::from_line(1, "api | INFO request completed".to_string());
    event.set_properties(vec![LogProperty {
        key: "tenantId".to_string(),
        value: PropertyValue::String("tenant-1".to_string()),
    }]);

    let row = render_event(&event, false, false, &[], &[], 120, 3);
    let text = row_text(row);

    assert!(text.ends_with("request completed"));
    assert!(!text.contains("tenant-1"));
}

#[test]
fn selected_display_fields_render_value_columns_after_message() {
    let mut event = LogEvent::from_line(1, "api | INFO request completed".to_string());
    event.set_properties(vec![
        LogProperty {
            key: "tenantId".to_string(),
            value: PropertyValue::String("tenant-1".to_string()),
        },
        LogProperty {
            key: "durationMs".to_string(),
            value: PropertyValue::Number("96".to_string()),
        },
    ]);

    let columns = [display_column("tenantId", 10), display_column("missing", 7)];
    let row = render_event(&event, false, false, &columns, &[], 120, 3);
    let text = row_text(row);

    assert!(text.contains("request completed"));
    assert!(text.contains(" tenant-1   -      "));
    assert!(!text.contains("tenantId=tenant-1"));
}

#[test]
fn display_field_header_labels_columns() {
    let columns = [
        display_column("tenantId", 8),
        display_column("requestId", 9),
    ];

    let header = render_header(&columns, 80);
    let text = header.into_iter().map(|span| span.text).collect::<String>();

    assert!(text.contains("service"));
    assert!(text.contains("level"));
    assert!(text.contains("message"));
    assert!(text.contains("tenantId"));
    assert!(text.contains("requestId"));
}

#[test]
fn long_display_field_values_are_truncated_in_fixed_columns() {
    let mut event = LogEvent::from_line(1, "api | INFO request completed".to_string());
    event.set_properties(vec![LogProperty {
        key: "requestId".to_string(),
        value: PropertyValue::String("abcdefghijklmnopqrstuvwxyz".to_string()),
    }]);
    let columns = [display_column("requestId", 8)];

    let row = render_event(&event, false, false, &columns, &[], 80, 3);
    let text = row_text(row);

    assert!(text.contains("abcdefg~"));
}

#[test]
fn property_values_are_highlighted_inside_message_text() {
    let event = LogEvent::from_line(
        1,
        "api | INFO request tenant-1 completed for abc".to_string(),
    );

    let row = render_event(&event, false, false, &[], &["tenant-1"], 120, 3);
    let highlighted = highlighted(row).concat();

    assert_eq!(highlighted, "tenant-1");
}

#[test]
fn search_values_are_highlighted_inside_message_text() {
    let event = LogEvent::from_line(1, "api | INFO request completed".to_string());

    let row = render_event(&event, false, false, &[], &["request"], 120, 3);
    let highlighted = highlighted(row).concat();

    assert_eq!(highlighted, "request");
}

#[test]
fn multiple_property_values_are_highlighted_inside_message_text() {
    let event = LogEvent::from_line(
        1,
        "api | INFO request tenant-1 completed for abc".to_string(),
    );

    let row = render_event(
        &event,
        false,
        false,
        &[],
        &["tenant-1", "abc"],
        120,
        3,
    );
    let highlighted = highlighted(row);

    assert_eq!(highlighted, vec!["tenant-1", "abc"]);
}

#[test]
fn punctuation_highlight_values_do_not_match_inside_alphanumeric_tokens() {
    let event = LogEvent::from_line(1, "api | INFO range 0-0 done".to_string());

    let row = render_event(&event, false, false, &[], &["-"], 120, 3);

    assert!(highlighted(row).is_empty());
}

#[test]
fn punctuation_highlight_values_still_match_standalone_tokens() {
    let event = LogEvent::from_line(1, "api | INFO empty - done".to_string());

    let row = render_event(&event, false, false, &[], &["-"], 120, 3);
    let highlighted = highlighted(row).concat();

    assert_eq!(highlighted, "-");
}

#[test]
fn empty_highlight_values_do_not_change_message_styling() {
    let event = LogEvent::from_line(1, "api | INFO request completed".to_string());

    let row = render_event(&event, false, false, &[], &[], 120, 3);

    assert!(highlighted(row).is_empty());
}

#[test]
fn marked_rows_render_marker_in_rail() {
    let event = LogEvent::from_line(1, "api | INFO request completed".to_string());

    let row = render_event(&event, false, true, &[], &[], 120, 3);

    assert_eq!(row[0][0].text, "*");
}

#[test]
fn long_messages_wrap_to_at_most_three_lines() {
    let event = LogEvent::from_line(
        1,
        "api | INFO alpha beta gamma delta epsilon zeta eta theta".to_string(),
    );

    let row = render_event(&event, false, false, &[], &[], 43, 3);
    let text = row
        .iter()
        .map(|line| line.iter().map(|span| span.text.as_str()).collect::<String>())
        .collect::<Vec<_>>();

    assert_eq!(row.len(), 3);
    assert!(text[2].ends_with('~'));
}

#[test]
fn wrapped_continuation_lines_align_with_message_column() {
    let event = LogEvent::from_line(
        1,
        "api | INFO alpha beta gamma delta epsilon zeta".to_string(),
    );

    let row = render_event(&event, false, false, &[], &[], 43, 3);

    assert_eq!(row[1][0].text.chars().count(), BASE_PREFIX_WIDTH);
    assert!(row[1][0].text.chars().all(|ch| ch == ' '));
}

#[test]
fn wrapped_messages_do_not_repeat_display_field_values() {
    let mut event = LogEvent::from_line(
        1,
        "api | INFO alpha beta gamma delta epsilon zeta eta theta".to_string(),
    );
    event.set_properties(vec![LogProperty {
        key: "tenantId".to_string(),
        value: PropertyValue::String("tenant-1".to_string()),
    }]);
    let columns = [display_column("tenantId", 8)];

    let row = render_event(&event, false, false, &columns, &[], 52, 3);
    let text = row
        .iter()
        .map(|line| line.iter().map(|span| span.text.as_str()).collect::<String>())
        .collect::<Vec<_>>();

    assert_eq!(
        text.iter().filter(|line| line.contains("tenant-1")).count(),
        1
    );
    assert!(text[1].ends_with("         "));
}

#[test]
fn wrapped_rows_report_their_visual_height() {
    let event = LogEvent::from_line(
        1,
        "api | INFO alpha beta gamma delta epsilon zeta eta theta".to_string(),
    );

    assert_eq!(event_height(&event, 43, &[], 3), 3);
}

fn display_column(key: &str, width: usize) -> DisplayFieldColumn {
    DisplayFieldColumn {
        key: key.to_string(),
        width,
    }
}

fn plain_status(filters: &LogFilter, width: u16) -> String {
    status_segments(filters, width)
        .into_iter()
        .map(|segment| segment.text)
        .collect::<String>()
}

#[test]
fn status_clips_long_filter_values_for_compact_widths() {
    let filters = LogFilter {
        text: Some("database connection failure in shard six".to_string()),
        source: Some("very-long-service-name".to_string()),
        level: Some(Level::Error),
        property_includes: vec![exact("tenantId", "tenant-1")],
        property_excludes: Vec::new(),
    };

    let status = plain_status(&filters, 110);

    assert!(status.contains("very-l~"));
    assert!(status.contains("databa~"));
    assert!(!status.contains("very-long-service-name"));
    assert!(!status.contains("database connection failure"));
    assert!(status.contains("q quit"));
    assert!(status.contains("c clear"));
    assert!(!status.contains("l level"));
}

#[test]
fn status_uses_full_help_for_wide_widths() {
    let status = plain_status(&LogFilter::default(), 140);

    assert!(status.contains("s source"));
    assert!(status.contains("l level"));
}

#[test]
fn status_keeps_essential_help_at_narrow_widths() {
    for width in [72, 60] {
        let status = plain_status(&LogFilter::default(), width);

        assert!(status.contains("q quit"), "width {width}: {status}");
        assert!(status.contains("? commands"), "width {width}: {status}");
        assert!(status.len() <= width as usize, "width {width}: {status}");
        assert!(status.contains("filters s=-"));
    }
}

#[test]
fn narrow_status_shortens_long_filters_before_essential_help() {
    let filters = LogFilter {
        text: Some("database connection failure in shard six".to_string()),
        source: Some("very-long-service-name".to_string()),
        level: Some(Level::Error),
        property_includes: vec![exact("tenantId", "tenant-1")],
        property_excludes: Vec::new(),
    };

    for width in 48..80 {
        let status = plain_status(&filters, width);
        assert!(status.contains("q quit"), "width {width}: {status}");
        assert!(status.contains("? commands"), "width {width}: {status}");
        assert!(status.len() <= width as usize, "width {width}: {status}");
        assert!(!status.contains("very-long-service-name"));
        assert!(!status.contains("database connection failure"));
    }
}

#[test]
fn very_narrow_render_clips_safely_after_essential_help_is_dropped() {
    let width = 24;
    let mut terminal = Terminal::new(TestBackend::new(width, 1)).unwrap();
    terminal
        .draw(|frame| {
            let spans = status_segments(&LogFilter::default(), width)
                .into_iter()
                .map(|segment| Span::raw(segment.text))
                .collect::<Vec<_>>();
            frame.render_widget(Paragraph::new(Line::from(spans)), frame.area());
        })
        .unwrap();

    let rendered = terminal
        .backend()
        .buffer()
        .content()
        .iter()
        .map(|cell| cell.symbol())
        .collect::<String>();
    assert_eq!(rendered.chars().count(), width as usize);
    assert!(!rendered.contains("q quit"));
}

#[test]
fn status_summarizes_property_filters() {
    let filters = LogFilter {
        property_includes: vec![exact("tenantId", "tenant-1")],
        property_excludes: vec![
            present("debug"),
            exact("statusCode", "500"),
        ],
        ..LogFilter::default()
    };
    let status = plain_status(&filters, 220);

    assert_eq!(
        property_filters_summary(&filters),
        "tenantId=tenant-1,!debug,statusCode!=500"
    );
    assert!(status.contains("props=tenantId=tenant-1,!debug"));
}

#[test]
fn visible_window_tracks_selected_row() {
    assert_eq!(visible_window(20, 0, 5), (0, 5));
    assert_eq!(visible_window(20, 6, 5), (2, 7));
    assert_eq!(visible_window(3, 10, 5), (0, 3));
}

#[test]
fn selectable_rows_clip_long_text() {
    let items = [SelectableListItem {
        shortcut: Some("very-long-shortcut".to_string()),
        label: "Extremely long command label".to_string(),
        description: "A description that will not fit into a narrow dialog".to_string(),
    }];

    let row = render_selectable_rows(&items, 0, 28)
        .into_iter()
        .next()
        .unwrap();
    let text = row.into_iter().map(|span| span.text).collect::<String>();

    assert!(text.contains("~"));
    assert!(!text.contains("Extremely long command label"));
    assert!(!text.contains("A description that will not fit"));
}

#[test]
fn truncate_tail_keeps_short_values_unchanged() {
    assert_eq!(truncate_tail("api", 8), "api");
}

#[test]
fn truncate_tail_marks_truncated_values() {
    assert_eq!(truncate_tail("very-long-service", 8), "very-lo~");
    assert_eq!(truncate_tail("api", 1), "~");
    assert_eq!(truncate_tail("api", 0), "");
}
