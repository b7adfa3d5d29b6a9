//! What holds of the library as a whole, on values.
use loggle::app::{App, DialogKind, Mode, PromptKind};
use loggle::buffer::pending::{is_continuation_line, MAX_BLOCK_LINES};
use loggle::buffer::{LogBuffer, MAX_CONTEXTS};
use loggle::commands::{all_commands, command_for_action};
use loggle::facet::escape::escape_facet_text;
use loggle::facet::{aggregate_facets, FacetKind, FacetOptions};
use loggle::filter::workflow::{FilterEdit, FilterWorkflow};
use loggle::filter::{LogFilter, PropertyFilterUpdate};
use loggle::keys::{KeyCode, KeyEvent, KeyModifiers};
use loggle::model::clean::clean_display_text;
use loggle::model::json::rewrite_json_number;
use loggle::model::property::{is_complete_quoted_scalar, is_property_body_line};
use loggle::model::{Level, LogEvent};
use loggle::runtime::keys::handle_key;
use loggle::text::chars_of;
use loggle::ui::dialog::{centered_dialog, closing_overlay, visible_window, Area};
use loggle::ui::row::{wrap_message, DisplayFieldColumn};
use loggle::ui::screen::{detail_lines, details_height, dialog_items, header_segments};
use loggle::ui::status::{copied_notice, status_segments};
use loggle::ui::text::{padded_cell, truncate_tail};

fn app_of(lines: &[&str]) -> App {
    let mut app = App::new(100);
    for line in lines {
        app.push_line(line.to_string());
    }
    app
}

fn ask(app: &mut App, kind: PromptKind, value: &str) {
    app.start_prompt(kind);
    while !app.prompt().is_empty() {
        app.pop_prompt_char();
    }
    for c in value.chars() {
        app.push_prompt_char(c);
    }
    app.apply_prompt();
}

#[test]
fn a_level_is_read_back_from_its_name() {
    for level in [
        Level::Fatal,
        Level::Error,
        Level::Warn,
        Level::Info,
        Level::Debug,
        Level::Trace,
        Level::Unknown,
    ] {
        assert_eq!(Level::parse(level.as_str()), Some(level));
    }
    assert_eq!(Level::parse("notice"), None);
}

#[test]
fn clean_text_stays_as_it_is() {
    let text = "\u{1b}[31mred\u{1b}[0m \u{7}bell\ttab\u{1b}]0;title\u{7}end";
    let clean = clean_display_text(text);
    assert!(!clean.chars().any(char::is_control));
    assert_eq!(clean_display_text(&clean), clean);
}

#[test]
fn a_shown_condition_can_be_typed() {
    for typed in ["tenant=one", "status!=500", "debug", "!debug", "path=/a=b", "k="] {
        let update = PropertyFilterUpdate::parse(typed, false).unwrap();
        let shown = update.predicate.summary_for(update.exclude);
        assert_eq!(shown, typed);
        assert_eq!(PropertyFilterUpdate::parse(&shown, false), Some(update));
    }
    assert_eq!(PropertyFilterUpdate::parse("=x", false), None);
    assert_eq!(PropertyFilterUpdate::parse("!", false), None);
}

#[test]
fn a_condition_added_twice_is_there_once_and_narrows() {
    let event = LogEvent::from_line(0, "api | INFO ready tenant=one".to_string());
    let mut filter = LogFilter::default();
    assert!(filter.matches(&event));
    for _ in 0..2 {
        filter.add_property_filter(PropertyFilterUpdate::parse("tenant!=one", false).unwrap());
    }
    assert_eq!(filter.property_excludes.len(), 1);
    assert!(!filter.matches(&event));
}

#[test]
fn undoing_restores_the_filter() {
    let mut workflow = FilterWorkflow::default();
    workflow.apply_prompt(FilterEdit::Source, "api", None);
    let before = workflow.filters().clone();
    workflow.apply_prompt(FilterEdit::Text, "failed", None);
    assert!(workflow.undo());
    assert_eq!(*workflow.filters(), before);
    workflow.apply_prompt(FilterEdit::Source, "api", None);
    assert_eq!(workflow.history_len(), 1);
    workflow.save_preset();
    workflow.save_preset();
    assert_eq!(workflow.filter_preset_row_count(""), 1);
    workflow.clear();
    assert!(workflow.apply_preset(0));
    assert_eq!(*workflow.filters(), before);
    assert!(workflow.delete_preset(0));
    assert!(!workflow.apply_preset(0));
}

#[test]
fn shown_events_match_the_filter_and_the_selection_is_one_of_them() {
    let mut app = app_of(&["api | ERROR one", "web | INFO two", "api | INFO three"]);
    ask(&mut app, PromptKind::Source, "api");
    for index in 0..app.visible_count() {
        assert!(app.filters().matches(app.visible_event_at(index).unwrap()));
    }
    assert!(app.selected() < app.visible_count());
    assert_eq!(app.export_visible_logs().line_count, app.visible_count());
    ask(&mut app, PromptKind::Source, "nothing");
    assert_eq!(app.visible_count(), 0);
    assert!(app.selected_event().is_none());
    assert_eq!(app.export_visible_logs().text, "");
}

#[test]
fn search_steps_forth_and_back() {
    let mut app = app_of(&["api | ERROR one", "api | ERROR two", "api | ERROR three"]);
    ask(&mut app, PromptKind::Text, "error");
    app.jump_top();
    app.next_search_match();
    app.previous_search_match();
    assert_eq!(app.selected(), 0);
    app.previous_search_match();
    assert_eq!(app.selected(), 2);
}

#[test]
fn a_key_clears_the_notice_and_cancelling_keeps_the_filter() {
    let key = |code| KeyEvent::new(code, KeyModifiers::Plain);
    let mut app = app_of(&["api | INFO one"]);
    ask(&mut app, PromptKind::Source, "api");
    app.set_notice("copied 1 line".to_string());
    handle_key(&mut app, key(KeyCode::Char('/')), 5);
    assert_eq!(app.notice(), None);
    handle_key(&mut app, key(KeyCode::Char('x')), 5);
    handle_key(&mut app, key(KeyCode::Esc), 5);
    assert_eq!(app.mode(), &Mode::Normal);
    assert_eq!(app.filters().source.as_deref(), Some("api"));
    assert_eq!(app.filters().text, None);
}

#[test]
fn every_action_is_a_command_of_its_own() {
    let commands = all_commands();
    for (index, command) in commands.iter().enumerate() {
        assert_eq!(
            commands
                .iter()
                .position(|other| other.action == command.action),
            Some(index)
        );
        assert_eq!(command_for_action(command.action), Some(*command));
    }
}

#[test]
fn facets_count_every_record() {
    let lines = [
        "api | ERROR one tenant=a tenant=b",
        "API | INFO two tenant=a",
        "web | INFO three",
        "db | WARN four tenant=c",
    ];
    let events: Vec<LogEvent> = lines
        .iter()
        .enumerate()
        .map(|(index, line)| LogEvent::from_line(index as u64, line.to_string()))
        .collect();
    let events: Vec<&LogEvent> = events.iter().collect();
    let options = FacetOptions::new(20, Some("tenant".to_string())).unwrap();
    let groups = aggregate_facets(&events, 100, &LogFilter::default(), &options);
    let total = |kind: FacetKind| -> usize {
        let group = groups.iter().find(|group| group.facet == kind).unwrap();
        group.buckets.iter().map(|bucket| bucket.count).sum()
    };
    assert_eq!(total(FacetKind::Source), 4);
    assert_eq!(total(FacetKind::Level), 4);
    assert_eq!(total(FacetKind::PropertyKey), 3);
    assert_eq!(total(FacetKind::PropertyValue), 3);
}

#[test]
fn escaped_texts_differ_where_the_texts_do() {
    let texts = ["a\n", "a\\n", "a\\\n", "a\u{7}", "a\\u{0007}", "a\t", "a"];
    for left in texts {
        for right in texts {
            assert_eq!(
                escape_facet_text(left) == escape_facet_text(right),
                left == right
            );
        }
        assert!(!escape_facet_text(left).chars().any(char::is_control));
    }
}

#[test]
fn streams_stay_apart() {
    let mut buffer = LogBuffer::new(10);
    buffer.push_source_line(1, None, "14:06:58.892 INFO first".to_string());
    buffer.push_source_line(1, None, "[14:06:58.892] INFO (#1):".to_string());
    buffer.push_source_line(1, None, "{".to_string());
    let change = buffer.push_source_line(2, None, "tenant: \"b\"".to_string());
    assert_eq!(change.consumed_by, None);
    assert!(change.appended.is_some());
    let change = buffer.push_source_line(1, None, "tenant: \"a\"".to_string());
    assert_eq!(change.consumed_by, Some(0));
    let change = buffer.push_source_line(1, None, "}".to_string());
    assert_eq!(change.updated, vec![0]);
    let value = &buffer.events()[0].property("tenant").unwrap().value;
    assert_eq!(value.as_display_str(), "a");
}

#[test]
fn too_many_contexts_are_forgotten_with_a_notice() {
    let mut buffer = LogBuffer::new(10);
    for stream in 0..MAX_CONTEXTS as u64 {
        let change = buffer.push_source_line(stream, None, "line".to_string());
        assert_eq!(change.notice, None);
    }
    let change = buffer.push_source_line(1000, None, "line".to_string());
    assert_eq!(
        change.notice.as_deref(),
        Some("source context limit reached; multiline inference reset")
    );
}

#[test]
fn blocks_that_end_badly_are_told_of() {
    let mut buffer = LogBuffer::new(MAX_BLOCK_LINES * 2);
    buffer.push_line("14:06:58.892 INFO first".to_string());
    buffer.push_line("[14:06:58.892] INFO (#1):".to_string());
    buffer.push_line("{".to_string());
    let notices: Vec<String> = (0..MAX_BLOCK_LINES)
        .filter_map(|_| buffer.push_line("  x: 1,".to_string()).notice)
        .map(|notice| notice.to_string())
        .collect();
    assert_eq!(
        notices,
        vec!["incomplete or oversized property block abandoned".to_string()]
    );
}

#[test]
fn a_buffer_without_room_keeps_nothing() {
    let mut buffer = LogBuffer::new(0);
    let change = buffer.push_line("api | one".to_string());
    assert_eq!(change.appended, None);
    assert_eq!(buffer.len(), 0);
    let mut app = App::new(0);
    app.push_line("api | one".to_string());
    assert_eq!(app.visible_count(), 0);
    assert_eq!(app.next_sequence(), 1);
}

#[test]
fn lines_of_objects_are_known() {
    for line in ["", "{", " },", "[ ]", "key: 1,", "\"text\",", "'a\\'b'", "-12.5,", "null", "true,"] {
        assert!(is_property_body_line(line), "{line}");
    }
    for line in ["GET /api", "\"open", "\"a\" b", "VITE ready"] {
        assert!(!is_property_body_line(line), "{line}");
    }
    assert!(is_complete_quoted_scalar(&chars_of("\"a\\\"b\"")));
    assert!(!is_complete_quoted_scalar(&chars_of("\"a\"b\"")));
    assert!(!is_complete_quoted_scalar(&chars_of("\"a\\\"")));
    assert!(!is_complete_quoted_scalar(&chars_of("\"")));
    assert!(is_continuation_line("    at handler"));
    assert!(!is_continuation_line("VITE ready"));
}

#[test]
fn json_numbers_are_written_as_json_writes_them() {
    assert_eq!(rewrite_json_number("500"), Some("500".to_string()));
    assert_eq!(rewrite_json_number("01"), None);
    assert_eq!(rewrite_json_number("1."), None);
    assert_eq!(rewrite_json_number("\"1\""), None);
    assert_eq!(rewrite_json_number("1.50"), Some("1.5".to_string()));
}

#[test]
fn texts_fit_where_they_are_shown() {
    for width in 0..12 {
        assert!(truncate_tail("very-long-service", width).chars().count() <= width);
        assert_eq!(padded_cell("api", width).chars().count(), width);
        for line in wrap_message("alpha beta gammadeltaepsilon", width, 3) {
            assert!(line.chars().count() <= width.max(1));
        }
    }
    for width in 48..80 {
        let shown: usize = status_segments(&LogFilter::default(), width)
            .iter()
            .map(|segment| segment.text.chars().count())
            .sum();
        assert!(shown <= width as usize);
    }
    assert_eq!(copied_notice(1), "copied 1 line");
    assert_eq!(copied_notice(2), "copied 2 lines");
}

#[test]
fn a_window_shows_the_selection() {
    for selected in 0..9 {
        for height in 1..6 {
            let (start, end) = visible_window(9, selected, height);
            assert!(start <= selected && selected < end);
        }
    }
    assert_eq!(visible_window(0, 3, 5), (0, 0));
}

#[test]
fn dialogs_are_in_the_middle() {
    let screen = Area {
        x: 0,
        y: 0,
        width: 100,
        height: 40,
    };
    assert_eq!(
        centered_dialog(screen),
        Area {
            x: 9,
            y: 10,
            width: 82,
            height: 20
        }
    );
    assert_eq!(
        closing_overlay(screen),
        Area {
            x: 23,
            y: 17,
            width: 54,
            height: 5
        }
    );
    let small = Area {
        x: 3,
        y: 1,
        width: 10,
        height: 4,
    };
    assert_eq!(centered_dialog(small), small);
}

#[test]
fn the_screen_tells_what_there_is() {
    let mut app = app_of(&["api | ERROR one tenant=a", "web | INFO two"]);
    let header: String = header_segments(&app, app.visible_count())
        .iter()
        .map(|segment| segment.text.as_str())
        .collect();
    assert_eq!(header, " loggle follow  retained 2  visible 2  markers 0");
    app.move_up(1);
    app.push_line("web | INFO three".to_string());
    let header: String = header_segments(&app, app.visible_count())
        .iter()
        .map(|segment| segment.text.as_str())
        .collect();
    assert!(header.ends_with("  new 1"));

    assert_eq!(details_height(false, 20), None);
    assert_eq!(details_height(true, 3), None);
    assert_eq!(details_height(true, 4), Some(3));
    assert_eq!(details_height(true, 40), Some(10));
    let event = app.selected_event().unwrap();
    let lines = detail_lines(event, 0, 80, 10);
    let details: Vec<String> = lines
        .iter()
        .map(|line| line.iter().map(|segment| segment.text.as_str()).collect())
        .collect();
    assert_eq!(details[0], " details source=api level=error time=-");
    assert_eq!(details[2], "> tenant = a");

    let items = dialog_items(&app, DialogKind::Sources);
    assert_eq!(items[0].label, "api");
    assert_eq!(
        items[0].description,
        "1 rows  1 errors  0 warnings  last error #0"
    );
    let empty = dialog_items(&app, DialogKind::PropertyFilters);
    assert_eq!(empty[0].label, "No property filters");
    let column = DisplayFieldColumn {
        key: "tenant".to_string(),
        width: 4,
    };
    assert_eq!(padded_cell(&column.key, column.width), "ten~");
}

#[test]
fn what_is_retained_depends_on_the_lines() {
    let lines = [
        "api | INFO one tenant=one",
        "web | ERROR two tenant=two",
        "api | INFO three tenant=one",
        "api | WARN four tenant=two",
        "web | INFO five tenant=one",
    ];
    let mut alone = App::new(3);
    let mut used = App::new(3);
    for (index, line) in lines.iter().enumerate() {
        alone.push_line(line.to_string());
        used.push_line(line.to_string());
        match index {
            0 => used.toggle_follow(),
            1 => ask(&mut used, PromptKind::Level, "error"),
            2 => ask(&mut used, PromptKind::Source, "api"),
            _ => {
                for code in [KeyCode::Char('k'), KeyCode::Char('v'), KeyCode::Esc] {
                    handle_key(&mut used, KeyEvent::new(code, KeyModifiers::Plain), 5);
                }
            }
        }
    }

    assert_eq!(used.retained_len(), 3);
    assert_eq!(alone.retained_len(), 3);
    used.clear_filters();
    assert_eq!(
        used.export_visible_logs().text,
        alone.export_visible_logs().text
    );
}

#[test]
fn facets_stay_as_they_were_counted() {
    let mut app = app_of(&["api | INFO one tenant=one", "web | ERROR two tenant=two"]);
    app.open_dialog(DialogKind::Facets);
    let values = |app: &App| {
        app.facet_dialog_rows()
            .into_iter()
            .map(|row| row.value.clone())
            .collect::<Vec<_>>()
    };
    let counted = values(&app);
    let summary = app.facet_dialog_summary().to_string();

    for name in ["worker", "api", "db"] {
        app.push_line(format!("{name} | WARN more tenant=three"));
    }
    assert_eq!(values(&app), counted);

    app.push_dialog_query_char(DialogKind::Facets, 't');
    let mut rest = counted.iter();
    for value in values(&app) {
        assert!(rest.any(|counted| *counted == value));
    }
    assert_eq!(app.facet_dialog_summary(), summary);
}
