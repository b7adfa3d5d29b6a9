use loggle::app::facets::{facet_root_summary, facet_value_summary};
use loggle::app::{App, DialogKind, Mode, PromptKind};
use loggle::facet::escape::escape_facet_text;
use loggle::facet::{aggregate_facets, FacetGroup, FacetKind, FacetOptions};
use loggle::filter::{LogFilter, PropertyFilterUpdate, PropertyPredicate};
use loggle::model::{Level, LogEvent};

fn exact(key: &str, value: &str) -> PropertyPredicate {
    PropertyPredicate::exact(key.to_string(), value.to_string())
}

fn present(key: &str) -> PropertyPredicate {
    PropertyPredicate::present(key.to_string())
}

fn add_message_fields(app: &mut App, keys: &[&str]) {
    let fields: Vec<String> = keys.iter().map(|key| format!("\"{key}\":1")).collect();
    app.push_line(format!("api | {{\"message\":\"row\",{}}}", fields.join(",")));
    for (index, key) in keys.iter().enumerate() {
        let properties = &app.selected_event().unwrap().properties;
        let wanted = properties.iter().position(|property| property.key == *key).unwrap();
        while app.selected_property_index() < wanted {
            app.next_property();
        }
        while app.selected_property_index() > wanted {
            app.previous_property();
        }
        app.add_selected_message_field();
        assert_eq!(app.message_field_keys().len(), index + 1);
    }
}

fn select_facet_row(app: &mut App, facet: FacetKind, value: &str) {
    let index = app
        .facet_dialog_rows()
        .iter()
        .position(|row| row.facet == facet && row.value == value)
        .unwrap();
    app.move_dialog_up(DialogKind::Facets, usize::MAX);
    app.move_dialog_down(DialogKind::Facets, index);
}

#[test]
fn follow_mode_tracks_bottom_as_lines_arrive() {
    let mut app = App::new(10);

    app.push_line("api | one".to_string());
    app.push_line("api | two".to_string());

    assert!(app.is_following());
    assert_eq!(app.selected(), 1);
}

#[test]
fn manual_navigation_disables_follow_mode() {
    let mut app = App::new(10);
    app.push_line("api | one".to_string());
    app.push_line("api | two".to_string());

    app.move_up(1);
    app.push_line("api | three".to_string());

    assert!(!app.is_following());
    assert_eq!(app.selected(), 0);
}

#[test]
fn paused_backlog_counts_lines_until_follow_resumes() {
    let mut app = App::new(10);
    app.push_line("api | one".to_string());
    app.push_line("api | two".to_string());

    app.move_up(1);
    app.push_line("api | three".to_string());
    app.push_line("api | four".to_string());

    assert!(!app.is_following());
    assert_eq!(app.paused_backlog(), 2);

    app.jump_bottom();

    assert!(app.is_following());
    assert_eq!(app.paused_backlog(), 0);
}

#[test]
fn jumping_to_bottom_reenables_follow_mode() {
    let mut app = App::new(10);
    app.push_line("api | one".to_string());
    app.push_line("api | two".to_string());
    app.move_up(1);

    app.jump_bottom();
    app.push_line("api | three".to_string());

    assert!(app.is_following());
    assert_eq!(app.selected(), 2);
}

#[test]
fn moving_up_walks_selection_through_current_log_viewport_first() {
    let mut app = App::new(10);
    for index in 0..8 {
        app.push_line(format!("api | {index}"));
    }

    app.sync_log_viewport(4);
    assert_eq!(app.selected(), 7);
    assert_eq!(app.log_viewport_start(), 4);

    app.move_up(1);
    app.sync_log_viewport(4);
    assert_eq!(app.selected(), 6);
    assert_eq!(app.log_viewport_start(), 4);

    app.move_up(2);
    app.sync_log_viewport(4);
    assert_eq!(app.selected(), 4);
    assert_eq!(app.log_viewport_start(), 4);

    app.move_up(1);
    app.sync_log_viewport(4);
    assert_eq!(app.selected(), 3);
    assert_eq!(app.log_viewport_start(), 3);
}

#[test]
fn moving_down_walks_selection_through_current_log_viewport_first() {
    let mut app = App::new(10);
    for index in 0..8 {
        app.push_line(format!("api | {index}"));
    }

    app.sync_log_viewport(4);
    app.move_up(3);
    app.sync_log_viewport(4);
    assert_eq!(app.selected(), 4);
    assert_eq!(app.log_viewport_start(), 4);

    app.move_down(2);
    app.sync_log_viewport(4);
    assert_eq!(app.selected(), 6);
    assert_eq!(app.log_viewport_start(), 4);

    app.move_down(1);
    app.sync_log_viewport(4);
    assert_eq!(app.selected(), 7);
    assert_eq!(app.log_viewport_start(), 4);
}

#[test]
fn search_navigation_finds_next_and_previous_matches() {
    let mut app = App::new(10);
    app.push_line("api | ERROR one".to_string());
    app.push_line("api | ok".to_string());
    app.push_line("web | ERROR two".to_string());
    app.filters_mut().text = Some("error".to_string());
    app.sync_visible_cache();
    app.jump_top();

    app.next_search_match();
    assert_eq!(
        app.event_at_visible(app.selected()).unwrap().raw,
        "web | ERROR two"
    );

    app.previous_search_match();
    assert_eq!(
        app.event_at_visible(app.selected()).unwrap().raw,
        "api | ERROR one"
    );
}

#[test]
fn visible_count_matches_retained_len_without_filters() {
    let mut app = App::new(10);
    app.push_line("api | INFO one".to_string());
    app.push_line("web | INFO two".to_string());
    app.push_line("worker | WARN three".to_string());

    assert_eq!(app.visible_count(), app.retained_len());
    assert_eq!(app.visible_event_at(1).unwrap().raw, "web | INFO two");
}

#[test]
fn visible_window_iterates_only_requested_filtered_rows() {
    let mut app = App::new(10);
    app.push_line("api | ERROR one".to_string());
    app.push_line("web | INFO two".to_string());
    app.push_line("worker | ERROR three".to_string());
    app.push_line("api | ERROR four".to_string());
    app.filters_mut().level = Some(Level::Error);
    app.sync_visible_cache();

    let rows: Vec<(usize, String)> = app
        .for_each_visible_event(1, 2)
        .into_iter()
        .map(|(visible_index, event)| (visible_index, event.raw.clone()))
        .collect();

    assert_eq!(
        rows,
        vec![
            (1, "worker | ERROR three".to_string()),
            (2, "api | ERROR four".to_string())
        ]
    );
}

#[test]
fn filtered_visible_cache_updates_as_matching_lines_arrive() {
    let mut app = App::new(10);
    app.start_prompt(PromptKind::Text);
    for ch in "error".chars() {
        app.push_prompt_char(ch);
    }
    app.apply_prompt();

    app.push_line("api | INFO one".to_string());
    app.push_line("api | ERROR two".to_string());
    app.push_line("api | ERROR three".to_string());

    assert_eq!(app.visible_count(), 2);
    assert_eq!(app.visible_event_at(0).unwrap().raw, "api | ERROR two");
    assert_eq!(app.visible_event_at(1).unwrap().raw, "api | ERROR three");
}

#[test]
fn filtered_visible_cache_drops_evicted_sequences() {
    let mut app = App::new(2);
    app.start_prompt(PromptKind::Text);
    for ch in "error".chars() {
        app.push_prompt_char(ch);
    }
    app.apply_prompt();

    app.push_line("api | ERROR one".to_string());
    app.push_line("api | INFO two".to_string());
    app.push_line("api | ERROR three".to_string());

    assert_eq!(app.visible_count(), 1);
    assert_eq!(app.visible_event_at(0).unwrap().raw, "api | ERROR three");
}

#[test]
fn filtered_visible_cache_refreshes_when_property_block_updates_event() {
    let mut app = App::new(10);
    app.start_prompt(PromptKind::IncludeProperty);
    while !app.prompt().is_empty() {
        app.pop_prompt_char();
    }
    for ch in "tenantId=tenant-1".chars() {
        app.push_prompt_char(ch);
    }
    app.apply_prompt();

    app.push_line("14:06:58.892 INFO request completed".to_string());
    assert_eq!(app.visible_count(), 0);

    app.push_line("[14:06:58.892] INFO (#1):".to_string());
    app.push_line("{".to_string());
    app.push_line("tenantId: \"tenant-1\",".to_string());
    app.push_line("}".to_string());

    assert_eq!(app.visible_count(), 1);
    assert_eq!(
        app.visible_event_at(0).unwrap().message,
        "request completed"
    );
}

#[test]
fn details_mode_tracks_selected_property() {
    let mut app = App::new(10);
    app.push_line("14:06:58.892 INFO request completed".to_string());
    app.push_line("[14:06:58.892] INFO (#1):".to_string());
    app.push_line("{".to_string());
    app.push_line("requestId: \"abc\",".to_string());
    app.push_line("tenantId: \"tenant-1\",".to_string());
    app.push_line("}".to_string());

    app.toggle_details();
    app.next_property();

    assert!(app.details_open());
    assert_eq!(app.selected_property().unwrap().key, "tenantId");
}

#[test]
fn follow_selected_property_adds_include_filter() {
    let mut app = App::new(10);
    app.push_line("14:06:58.892 INFO request completed".to_string());
    app.push_line("[14:06:58.892] INFO (#1):".to_string());
    app.push_line("{".to_string());
    app.push_line("tenantId: \"tenant-1\",".to_string());
    app.push_line("}".to_string());

    app.follow_selected_property();

    assert_eq!(
        app.filters().property_includes,
        vec![exact("tenantId", "tenant-1")]
    );
}

#[test]
fn undo_filter_change_restores_previous_filters() {
    let mut app = App::new(10);
    app.push_line("api | ERROR one".to_string());
    app.push_line("web | INFO two".to_string());

    app.start_prompt(PromptKind::Level);
    for ch in "error".chars() {
        app.push_prompt_char(ch);
    }
    app.apply_prompt();

    assert_eq!(app.visible_count(), 1);
    assert_eq!(app.filter_history_len(), 1);

    app.undo_filter_change();

    assert_eq!(app.visible_count(), 2);
    assert_eq!(app.filters().level, None);
    assert_eq!(app.filter_history_len(), 0);
}

#[test]
fn undo_filter_change_restores_property_isolation() {
    let mut app = App::new(10);
    app.push_line("14:06:58.892 INFO request completed".to_string());
    app.push_line("[14:06:58.892] INFO (#1):".to_string());
    app.push_line("{".to_string());
    app.push_line("tenantId: \"tenant-1\",".to_string());
    app.push_line("}".to_string());

    app.follow_selected_property();
    assert_eq!(app.visible_count(), 1);
    assert_eq!(app.filters().property_includes.len(), 1);

    app.undo_filter_change();

    assert_eq!(app.visible_count(), 1);
    assert!(app.filters().property_includes.is_empty());
}

#[test]
fn filter_presets_save_search_and_restore_filters() {
    let mut app = App::new(10);
    app.push_line("api | ERROR one".to_string());
    app.push_line("web | INFO two".to_string());
    app.start_prompt(PromptKind::Level);
    for ch in "error".chars() {
        app.push_prompt_char(ch);
    }
    app.apply_prompt();

    app.save_filter_preset();
    app.clear_filters();
    assert_eq!(app.visible_count(), 2);

    app.open_dialog(DialogKind::FilterPresets);
    app.push_dialog_query_char(DialogKind::FilterPresets, 'e');
    app.push_dialog_query_char(DialogKind::FilterPresets, 'r');
    let rows = app.filter_preset_rows();
    assert_eq!(rows.len(), 1);
    assert_eq!(rows[0].summary, "level=error");

    app.activate_selected_dialog_row(DialogKind::FilterPresets);

    assert_eq!(app.mode(), &Mode::Normal);
    assert_eq!(app.filters().level, Some(Level::Error));
    assert_eq!(app.visible_count(), 1);
}

#[test]
fn filter_presets_are_not_duplicated() {
    let mut app = App::new(10);
    app.start_prompt(PromptKind::Source);
    for ch in "api".chars() {
        app.push_prompt_char(ch);
    }
    app.apply_prompt();

    app.save_filter_preset();
    app.save_filter_preset();

    assert_eq!(app.filter_preset_rows().len(), 1);
}

#[test]
fn export_visible_logs_writes_filtered_rows() {
    let mut app = App::new(10);
    app.push_line("api | ERROR one".to_string());
    app.push_line("web | INFO two".to_string());
    app.push_line("api | ERROR three".to_string());
    app.start_prompt(PromptKind::Level);
    for ch in "error".chars() {
        app.push_prompt_char(ch);
    }
    app.apply_prompt();

    let exported = app.export_visible_logs();
    let (output, count) = (exported.text, exported.line_count);

    assert_eq!(count, 2);
    assert_eq!(output, "api | ERROR one\napi | ERROR three\n");
}

#[test]
fn yanking_selected_line_returns_raw_log_text() {
    let mut app = App::new(10);
    app.push_line("api | INFO one".to_string());
    app.push_line("web | WARN two".to_string());

    let yanked = app.yank_selected_line().unwrap();

    assert_eq!(yanked.text, "web | WARN two");
    assert_eq!(yanked.line_count, 1);
}

#[test]
fn visual_selection_yanks_selected_visible_range() {
    let mut app = App::new(10);
    app.push_line("api | INFO one".to_string());
    app.push_line("web | INFO two".to_string());
    app.push_line("worker | INFO three".to_string());
    app.jump_top();

    app.start_visual_selection();
    app.move_down(2);
    let yanked = app.yank_visual_selection().unwrap();

    assert_eq!(
        yanked.text,
        "api | INFO one\nweb | INFO two\nworker | INFO three"
    );
    assert_eq!(yanked.line_count, 3);
    assert_eq!(app.mode(), &Mode::Normal);
    assert_eq!(app.visual_selection_range(), None);
}

#[test]
fn visual_selection_range_handles_upward_selection() {
    let mut app = App::new(10);
    app.push_line("api | INFO one".to_string());
    app.push_line("web | INFO two".to_string());
    app.push_line("worker | INFO three".to_string());

    app.start_visual_selection();
    app.move_up(2);

    assert_eq!(app.visual_selection_range(), Some((0, 2)));
    assert_eq!(app.visual_selected_count(), 3);
}

#[test]
fn visual_selection_yanks_filtered_visible_rows_only() {
    let mut app = App::new(10);
    app.push_line("api | ERROR one".to_string());
    app.push_line("web | INFO two".to_string());
    app.push_line("api | ERROR three".to_string());
    app.start_prompt(PromptKind::Level);
    for ch in "error".chars() {
        app.push_prompt_char(ch);
    }
    app.apply_prompt();
    app.jump_top();

    app.start_visual_selection();
    app.move_down(1);
    let yanked = app.yank_visual_selection().unwrap();

    assert_eq!(yanked.text, "api | ERROR one\napi | ERROR three");
    assert_eq!(yanked.line_count, 2);
}

#[test]
fn visual_selection_does_not_start_without_visible_rows() {
    let mut app = App::new(10);

    app.start_visual_selection();

    assert_eq!(app.mode(), &Mode::Normal);
    assert_eq!(app.yank_selected_line(), None);
}

#[test]
fn toggling_selected_marker_tracks_selected_event() {
    let mut app = App::new(10);
    app.push_line("api | INFO one".to_string());
    app.push_line("api | INFO two".to_string());

    let sequence = app.selected_event().unwrap().sequence;
    app.toggle_selected_marker();

    assert_eq!(app.marker_count(), 1);
    assert!(app.is_marked(sequence));

    app.toggle_selected_marker();

    assert_eq!(app.marker_count(), 0);
    assert!(!app.is_marked(sequence));
}

#[test]
fn source_status_rows_summarize_observed_sources() {
    let mut app = App::new(10);
    app.push_line("api | ERROR one".to_string());
    app.push_line("api | WARN two".to_string());
    app.push_line("web | INFO three".to_string());

    let rows = app.source_status_rows();

    assert_eq!(rows.len(), 2);
    assert_eq!(rows[0].source, "api");
    assert_eq!(rows[0].count, 2);
    assert_eq!(rows[0].errors, 1);
    assert_eq!(rows[0].warnings, 1);
    assert_eq!(rows[0].last_level, Level::Warn);
    assert_eq!(rows[1].source, "web");
    assert_eq!(rows[1].count, 1);
}

#[test]
fn markers_are_removed_when_events_are_evicted() {
    let mut app = App::new(1);
    app.push_line("api | INFO one".to_string());
    app.toggle_selected_marker();
    assert_eq!(app.marker_count(), 1);

    app.push_line("api | INFO two".to_string());

    assert_eq!(app.marker_count(), 0);
}

#[test]
fn adding_selected_message_field_uses_property_key_once() {
    let mut app = App::new(10);
    app.push_line("14:06:58.892 INFO request completed".to_string());
    app.push_line("[14:06:58.892] INFO (#1):".to_string());
    app.push_line("{".to_string());
    app.push_line("tenantId: \"tenant-1\",".to_string());
    app.push_line("requestId: \"abc\",".to_string());
    app.push_line("}".to_string());

    app.add_selected_message_field();
    app.add_selected_message_field();
    app.next_property();
    app.add_selected_message_field();

    assert_eq!(
        app.message_field_keys(),
        &["tenantId".to_string(), "requestId".to_string()]
    );
}

#[test]
fn message_field_dialog_searches_and_deletes_selected_fields() {
    let mut app = App::new(10);
    add_message_fields(&mut app, &["tenantId", "requestId", "durationMs"]);

    app.open_dialog(DialogKind::MessageFields);
    app.push_dialog_query_char(DialogKind::MessageFields, 'r');
    app.push_dialog_query_char(DialogKind::MessageFields, 'e');

    assert_eq!(app.mode(), &Mode::Dialog(DialogKind::MessageFields));
    assert_eq!(app.message_field_rows(), vec!["requestId"]);

    app.delete_selected_dialog_row(DialogKind::MessageFields);

    assert_eq!(
        app.message_field_keys(),
        &["tenantId".to_string(), "durationMs".to_string()]
    );
    assert_eq!(app.mode(), &Mode::Dialog(DialogKind::MessageFields));
    assert_eq!(app.selected_dialog_index(DialogKind::MessageFields), 0);
}

#[test]
fn message_field_dialog_backspace_deletes_when_search_is_empty() {
    let mut app = App::new(10);
    add_message_fields(&mut app, &["tenantId"]);

    app.open_dialog(DialogKind::MessageFields);
    app.delete_selected_dialog_row(DialogKind::MessageFields);

    assert!(app.message_field_keys().is_empty());
    assert_eq!(app.mode(), &Mode::Dialog(DialogKind::MessageFields));
}

#[test]
fn palette_opens_and_closes_from_normal_mode() {
    let mut app = App::new(10);

    app.toggle_palette();
    assert_eq!(app.mode(), &Mode::Palette);

    app.toggle_palette();
    assert_eq!(app.mode(), &Mode::Normal);
}

#[test]
fn palette_selection_moves_and_clamps() {
    let mut app = App::new(10);
    app.open_palette();

    app.move_palette_down(2);
    assert_eq!(app.palette_selected(), 2);

    app.move_palette_down(usize::MAX);
    assert_eq!(app.palette_selected(), app.palette_commands().len() - 1);

    app.move_palette_up(usize::MAX);
    assert_eq!(app.palette_selected(), 0);
}

#[test]
fn property_filter_dialog_searches_active_filters() {
    let mut app = App::new(10);
    app.filters_mut().add_property_filter(PropertyFilterUpdate {
        exclude: false,
        predicate: exact("tenantId", "tenant-1"),
    });
    app.filters_mut().add_property_filter(PropertyFilterUpdate {
        exclude: true,
        predicate: present("debug"),
    });

    app.open_dialog(DialogKind::PropertyFilters);
    app.push_dialog_query_char(DialogKind::PropertyFilters, 'i');
    app.push_dialog_query_char(DialogKind::PropertyFilters, 'g');

    assert_eq!(app.mode(), &Mode::Dialog(DialogKind::PropertyFilters));
    let rows = app.property_filter_rows();
    assert_eq!(rows.len(), 1);
    assert_eq!(rows[0].kind, "ignore");
    assert_eq!(rows[0].summary, "!debug");
}

#[test]
fn deleting_selected_property_filter_removes_it() {
    let mut app = App::new(10);
    app.filters_mut().add_property_filter(PropertyFilterUpdate {
        exclude: false,
        predicate: exact("tenantId", "tenant-1"),
    });
    app.filters_mut().add_property_filter(PropertyFilterUpdate {
        exclude: true,
        predicate: present("debug"),
    });

    app.open_dialog(DialogKind::PropertyFilters);
    app.move_dialog_down(DialogKind::PropertyFilters, 1);
    app.delete_selected_dialog_row(DialogKind::PropertyFilters);

    assert_eq!(
        app.filters().property_includes,
        vec![exact("tenantId", "tenant-1")]
    );
    assert!(app.filters().property_excludes.is_empty());
    assert_eq!(app.mode(), &Mode::Dialog(DialogKind::PropertyFilters));
    assert_eq!(app.selected_dialog_index(DialogKind::PropertyFilters), 0);
}

#[test]
fn editing_property_filter_replaces_existing_filter() {
    let mut app = App::new(10);
    app.filters_mut().add_property_filter(PropertyFilterUpdate {
        exclude: false,
        predicate: exact("tenantId", "tenant-1"),
    });

    app.open_dialog(DialogKind::PropertyFilters);
    app.start_property_filter_edit();
    assert_eq!(app.mode(), &Mode::Prompt(PromptKind::EditPropertyFilter));
    assert_eq!(app.prompt(), "tenantId=tenant-1");
    for _ in 0.."tenantId=tenant-1".len() {
        app.pop_prompt_char();
    }
    for value in "tenantId!=tenant-2".chars() {
        app.push_prompt_char(value);
    }
    app.apply_prompt();

    assert_eq!(app.mode(), &Mode::Dialog(DialogKind::PropertyFilters));
    assert!(app.filters().property_includes.is_empty());
    assert_eq!(
        app.filters().property_excludes,
        vec![exact("tenantId", "tenant-2")]
    );
}

#[test]
fn facet_dialog_snapshots_once_and_searches_stored_rows() {
    let mut app = App::new(20);
    app.push_line("api | INFO one tenant=one".to_string());
    app.push_line("web | ERROR two region=eu".to_string());
    app.open_dialog(DialogKind::Facets);

    let summary = app.facet_dialog_summary().to_string();
    let rows = app
        .facet_dialog_rows()
        .into_iter()
        .cloned()
        .collect::<Vec<_>>();
    assert!(summary.contains("win=2/2"));

    app.push_line("worker | WARN three new=value".to_string());
    assert_eq!(app.facet_dialog_summary(), summary);
    assert_eq!(
        app.facet_dialog_rows()
            .into_iter()
            .cloned()
            .collect::<Vec<_>>(),
        rows
    );

    for character in "api".chars() {
        app.push_dialog_query_char(DialogKind::Facets, character);
    }
    let filtered = app.facet_dialog_rows();
    assert_eq!(filtered.len(), 1);
    assert_eq!(filtered[0].facet, FacetKind::Source);
    assert_eq!(filtered[0].value, "api");
    assert_eq!(app.facet_dialog_summary(), summary);
}

#[test]
fn facet_property_drilldown_refreshes_all_groups_and_preserves_root_state() {
    let mut app = App::new(20);
    app.push_line("api | INFO row tenant=one region=eu".to_string());
    app.open_dialog(DialogKind::Facets);
    for character in "property_key".chars() {
        app.push_dialog_query_char(DialogKind::Facets, character);
    }
    assert_eq!(app.facet_dialog_rows().len(), 2);
    select_facet_row(&mut app, FacetKind::PropertyKey, "tenant");
    assert_eq!(app.selected_dialog_index(DialogKind::Facets), 1);

    app.push_line("web | ERROR row tenant=two".to_string());
    app.activate_selected_dialog_row(DialogKind::Facets);

    assert!(app.facet_dialog_is_drilldown());
    assert_eq!(app.dialog_query(DialogKind::Facets), "");
    assert!(app.facet_dialog_summary().contains("win=2/2"));
    assert!(app.facet_dialog_summary().contains("val=2/2"));
    assert_eq!(
        app.facet_dialog_rows()
            .iter()
            .map(|row| row.value.as_str())
            .collect::<Vec<_>>(),
        ["one", "two"]
    );

    app.delete_selected_dialog_row(DialogKind::Facets);
    assert!(!app.facet_dialog_is_drilldown());
    assert_eq!(app.dialog_query(DialogKind::Facets), "property_key");
    assert_eq!(app.selected_dialog_index(DialogKind::Facets), 0);
    let selected = app.facet_dialog_rows()[app.selected_dialog_index(DialogKind::Facets)];
    assert_eq!(selected.facet, FacetKind::PropertyKey);
    assert_eq!(selected.value, "tenant");
    assert!(app.facet_dialog_summary().contains("src=2/2"));
    assert_eq!(app.facet_dialog_rows().len(), 2);

    app.activate_selected_dialog_row(DialogKind::Facets);
    assert!(app.facet_dialog_is_drilldown());
    assert!(app.facet_dialog_summary().contains("key=tenant"));
}

#[test]
fn facet_source_and_level_choices_apply_with_undo_and_visible_resync() {
    let mut app = App::new(20);
    app.push_line("api | INFO one".to_string());
    app.push_line("web | ERROR two".to_string());

    app.open_dialog(DialogKind::Facets);
    select_facet_row(&mut app, FacetKind::Source, "web");
    app.activate_selected_dialog_row(DialogKind::Facets);
    assert_eq!(app.filters().source.as_deref(), Some("web"));
    assert_eq!(app.filter_history_len(), 1);
    assert_eq!(app.visible_count(), 1);

    app.undo_filter_change();
    assert_eq!(app.filters().source, None);
    assert_eq!(app.visible_count(), 2);

    app.open_dialog(DialogKind::Facets);
    select_facet_row(&mut app, FacetKind::Level, "error");
    app.activate_selected_dialog_row(DialogKind::Facets);
    assert_eq!(app.filters().level, Some(Level::Error));
    assert_eq!(app.filter_history_len(), 1);
    assert_eq!(app.visible_count(), 1);

    app.open_dialog(DialogKind::Facets);
    select_facet_row(&mut app, FacetKind::Level, "error");
    app.activate_selected_dialog_row(DialogKind::Facets);
    assert_eq!(app.filter_history_len(), 1);
    app.undo_filter_change();
    assert_eq!(app.filters().level, None);
    assert_eq!(app.visible_count(), 2);
}

#[test]
fn facet_property_value_choice_replaces_same_key_filters_and_is_undoable() {
    let mut app = App::new(20);
    app.push_line("api | INFO row tenant=one region=eu".to_string());
    app.push_line("api | INFO row tenant=two region=eu".to_string());
    app.filters_mut()
        .property_excludes
        .push(exact("tenant", "two"));
    app.filters_mut()
        .property_includes
        .push(exact("region", "eu"));

    app.open_dialog(DialogKind::Facets);
    select_facet_row(&mut app, FacetKind::PropertyKey, "tenant");
    app.activate_selected_dialog_row(DialogKind::Facets);
    select_facet_row(&mut app, FacetKind::PropertyValue, "two");
    app.activate_selected_dialog_row(DialogKind::Facets);

    assert_eq!(app.mode(), &Mode::Normal);
    assert_eq!(app.filter_history_len(), 1);
    assert_eq!(
        app.filters().property_includes,
        vec![
            exact("region", "eu"),
            exact("tenant", "two")
        ]
    );
    assert!(app.filters().property_excludes.is_empty());
    assert_eq!(app.visible_count(), 1);
    assert_eq!(
        app.visible_event_at(0)
            .unwrap()
            .property("tenant")
            .unwrap()
            .value
            .to_text(),
        "two"
    );

    app.undo_filter_change();
    assert_eq!(
        app.filters().property_excludes,
        vec![exact("tenant", "two")]
    );
}

#[test]
fn facet_reselection_semantic_no_ops_do_not_add_history() {
    let mut app = App::new(20);
    app.push_line("API | INFO row tenant=one region=eu".to_string());
    app.filters_mut().source = Some("api".to_string());
    app.open_dialog(DialogKind::Facets);
    select_facet_row(&mut app, FacetKind::Source, "api");
    app.activate_selected_dialog_row(DialogKind::Facets);
    assert_eq!(app.filter_history_len(), 0);

    app.filters_mut().property_includes = vec![
        exact("region", "eu"),
        exact("tenant", "one"),
    ];
    app.open_dialog(DialogKind::Facets);
    select_facet_row(&mut app, FacetKind::PropertyKey, "tenant");
    app.activate_selected_dialog_row(DialogKind::Facets);
    select_facet_row(&mut app, FacetKind::PropertyValue, "one");
    app.activate_selected_dialog_row(DialogKind::Facets);
    assert_eq!(app.filter_history_len(), 0);
}

#[test]
fn facet_summaries_disclose_pre_search_bucket_clipping() {
    let mut app = App::new(200);
    for index in 0..101 {
        app.push_line(format!("source-{index:03} | INFO row"));
    }
    app.open_dialog(DialogKind::Facets);

    let summary = app.facet_dialog_summary().to_string();
    assert!(summary.contains("src=100/101"));
    for character in "source-000".chars() {
        app.push_dialog_query_char(DialogKind::Facets, character);
    }
    assert_eq!(app.facet_dialog_rows().len(), 1);
    assert_eq!(app.facet_dialog_summary(), summary);
}

fn group(facet: FacetKind, shown: usize, total: usize) -> FacetGroup {
    let events: Vec<LogEvent> = (0..shown)
        .map(|index| LogEvent::from_line(index as u64, format!("value-{index} | row")))
        .collect();
    let events: Vec<&LogEvent> = events.iter().collect();
    let options = FacetOptions::new(100, None).unwrap();
    let mut groups = aggregate_facets(&events, 100_000, &LogFilter::default(), &options);
    let mut group = groups.remove(0);
    group.facet = facet;
    group.available_records = 100_001;
    group.window_records = 100_000;
    group.window_truncated = true;
    group.matched_records = 100_000;
    group.eligible_records = 100_000;
    group.total_buckets = total;
    group.truncated = shown < total;
    group
}

#[test]
fn facet_summaries_keep_all_counts_within_wide_dialog_content() {
    let groups = vec![
        group(FacetKind::Source, 100, 100_000),
        group(FacetKind::Level, 7, 7),
        group(FacetKind::PropertyKey, 100, 100_000),
    ];
    let summary = facet_root_summary(&groups);

    assert_eq!(
        summary,
        "win=100000/100001 clipped src=100/100000 lvl=7/7 key=100/100000"
    );
    assert!(summary.chars().count() <= 80);

    let value_group = group(FacetKind::PropertyValue, 100, 100_000);
    let property_key = format!("{}{}", r"tenant\\segment".repeat(12), "\n".repeat(12));
    let escaped_key = escape_facet_text(&property_key);
    let summary = facet_value_summary(&value_group, &property_key);

    assert!(summary.starts_with("win=100000/100001 clipped val=100/100000 key="));
    assert_eq!(summary.chars().count(), 80);
    assert!(summary.ends_with('~'));
    assert!(!summary.contains(&escaped_key));
}

#[test]
fn facet_rows_keep_raw_values_but_escape_literal_and_control_text_distinctly() {
    let mut app = App::new(20);
    app.push_line(r#"api | {"message":"literal","value":"\\n"}"#.to_string());
    app.push_line(r#"api | {"message":"control","value":"\n"}"#.to_string());
    app.open_dialog(DialogKind::Facets);
    select_facet_row(&mut app, FacetKind::PropertyKey, "value");
    app.activate_selected_dialog_row(DialogKind::Facets);

    let rendered = app
        .facet_dialog_rows()
        .iter()
        .map(|row| escape_facet_text(&row.value))
        .collect::<Vec<_>>();
    assert!(rendered.contains(&r"\n".to_string()));
    assert!(rendered.contains(&r"\\n".to_string()));
    assert_ne!(rendered[0], rendered[1]);

    for character in r"\n".chars() {
        app.push_dialog_query_char(DialogKind::Facets, character);
    }
    assert_eq!(app.facet_dialog_rows().len(), 2);
    select_facet_row(&mut app, FacetKind::PropertyValue, "\n");
    app.activate_selected_dialog_row(DialogKind::Facets);
    assert_eq!(
        app.filters().property_includes,
        vec![exact("value", "\n")]
    );
}

#[test]
fn a_field_that_is_shown_again_is_at_its_place() {
    let mut app = App::new(10);
    add_message_fields(&mut app, &["tenantId", "requestId", "durationMs"]);
    app.open_dialog(DialogKind::MessageFields);

    app.activate_selected_dialog_row(DialogKind::MessageFields);
    assert_eq!(app.message_field_keys(), ["requestId", "durationMs"]);
    assert_eq!(
        app.message_field_rows(),
        ["tenantId", "requestId", "durationMs"]
    );
    assert_eq!(app.selected_message_field_key(), Some("tenantId"));
    app.activate_selected_dialog_row(DialogKind::MessageFields);
    assert_eq!(
        app.message_field_keys(),
        ["tenantId", "requestId", "durationMs"]
    );

    app.activate_selected_dialog_row(DialogKind::MessageFields);
    app.delete_selected_dialog_row(DialogKind::MessageFields);
    assert_eq!(app.message_field_rows(), ["requestId", "durationMs"]);
    assert_eq!(app.message_field_keys(), ["requestId", "durationMs"]);
}

#[test]
fn a_hidden_field_is_shown_again_when_it_is_added() {
    let mut app = App::new(10);
    add_message_fields(&mut app, &["tenantId", "requestId"]);
    app.open_dialog(DialogKind::MessageFields);
    app.activate_selected_dialog_row(DialogKind::MessageFields);
    assert_eq!(app.message_field_keys(), ["requestId"]);

    let key = app.selected_property().unwrap().key.clone();
    app.add_selected_message_field();
    assert_eq!(key, "requestId");
    assert_eq!(app.message_field_keys(), ["requestId"]);
    while app.selected_property().unwrap().key != "tenantId" {
        let before = app.selected_property_index();
        app.next_property();
        if app.selected_property_index() == before {
            for _ in 0..=before {
                app.previous_property();
            }
        }
    }
    app.add_selected_message_field();
    assert_eq!(app.message_field_keys(), ["tenantId", "requestId"]);
    assert_eq!(app.message_field_rows(), ["tenantId", "requestId"]);
}

#[test]
fn the_selection_is_a_shown_event() {
    let mut app = App::new(3);
    assert_eq!(app.selected(), 0);
    for index in 0..5 {
        app.push_line(format!("api | {index}"));
        assert_eq!(app.selected(), app.visible_count() - 1);
    }
    app.move_up(1);
    app.push_line("api | more".to_string());
    assert!(app.selected() < app.visible_count());
    app.filters_mut().source = Some("web".to_string());
    app.sync_visible_cache();
    assert_eq!((app.visible_count(), app.selected()), (0, 0));
}
