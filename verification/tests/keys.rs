use loggle::app::{App, DialogKind, Mode, PromptKind};
use loggle::commands::CommandAction;
use loggle::keys::{KeyCode, KeyEvent, KeyModifiers};
use loggle::model::Level;
use loggle::runtime::keys::{handle_key, KeyOutcome};

fn key(code: KeyCode) -> KeyEvent {
    KeyEvent::new(code, KeyModifiers::Plain)
}

#[test]
fn normal_mode_quit_key_requests_exit() {
    let mut app = App::new(10);

    let outcome = handle_key(&mut app, key(KeyCode::Char('q')), 5);

    assert_eq!(outcome, KeyOutcome::Quit);
}

#[test]
fn normal_mode_search_key_starts_text_prompt() {
    let mut app = App::new(10);

    let outcome = handle_key(&mut app, key(KeyCode::Char('/')), 5);

    assert_eq!(outcome, KeyOutcome::Continue);
    assert_eq!(app.mode(), &Mode::Prompt(PromptKind::Text));
}

#[test]
fn prompt_mode_edits_and_applies_prompt() {
    let mut app = App::new(10);
    app.start_prompt(PromptKind::Level);

    for value in "error".chars() {
        handle_key(&mut app, key(KeyCode::Char(value)), 5);
    }
    handle_key(&mut app, key(KeyCode::Enter), 5);

    assert_eq!(app.mode(), &Mode::Normal);
    assert_eq!(app.filters().level, Some(Level::Error));
}

#[test]
fn property_prompt_adds_include_filter() {
    let mut app = App::new(10);

    handle_key(&mut app, key(KeyCode::Char('+')), 5);
    for value in "tenantId=tenant-1".chars() {
        handle_key(&mut app, key(KeyCode::Char(value)), 5);
    }
    handle_key(&mut app, key(KeyCode::Enter), 5);

    assert_eq!(app.filters().property_includes.len(), 1);
}

#[test]
fn prompt_escape_cancels_without_applying() {
    let mut app = App::new(10);
    app.start_prompt(PromptKind::Text);
    handle_key(&mut app, key(KeyCode::Char('e')), 5);

    handle_key(&mut app, key(KeyCode::Esc), 5);

    assert_eq!(app.mode(), &Mode::Normal);
    assert_eq!(app.filters().text, None);
}

#[test]
fn normal_mode_u_restores_previous_filter_state() {
    let mut app = App::new(10);
    handle_key(&mut app, key(KeyCode::Char('l')), 5);
    for value in "error".chars() {
        handle_key(&mut app, key(KeyCode::Char(value)), 5);
    }
    handle_key(&mut app, key(KeyCode::Enter), 5);

    assert_eq!(app.filters().level, Some(Level::Error));

    handle_key(&mut app, key(KeyCode::Char('u')), 5);

    assert_eq!(app.filters().level, None);
}

#[test]
fn question_mark_opens_palette() {
    let mut app = App::new(10);

    handle_key(&mut app, key(KeyCode::Char('?')), 5);

    assert_eq!(app.mode(), &Mode::Palette);
}

#[test]
fn capital_p_opens_property_filter_dialog() {
    let mut app = App::new(10);

    handle_key(&mut app, key(KeyCode::Char('P')), 5);

    assert_eq!(app.mode(), &Mode::Dialog(DialogKind::PropertyFilters));
}

#[test]
fn capital_m_opens_display_fields_dialog() {
    let mut app = App::new(10);

    handle_key(&mut app, key(KeyCode::Char('M')), 5);

    assert_eq!(app.mode(), &Mode::Dialog(DialogKind::MessageFields));
}

#[test]
fn capital_v_opens_filter_presets_dialog() {
    let mut app = App::new(10);

    handle_key(&mut app, key(KeyCode::Char('V')), 5);

    assert_eq!(app.mode(), &Mode::Dialog(DialogKind::FilterPresets));
}

#[test]
fn capital_t_toggles_selected_marker() {
    let mut app = App::new(10);
    app.push_line("api | INFO one".to_string());

    handle_key(&mut app, key(KeyCode::Char('T')), 5);

    assert_eq!(app.marker_count(), 1);
}

#[test]
fn capital_o_opens_sources_dialog() {
    let mut app = App::new(10);

    handle_key(&mut app, key(KeyCode::Char('O')), 5);

    assert_eq!(app.mode(), &Mode::Dialog(DialogKind::Sources));
}

#[test]
fn normal_mode_y_copies_selected_line() {
    let mut app = App::new(10);
    app.push_line("api | INFO one".to_string());
    app.push_line("web | WARN two".to_string());

    let outcome = handle_key(&mut app, key(KeyCode::Char('y')), 5);

    assert_eq!(
        outcome,
        KeyOutcome::Copy {
            text: "web | WARN two".to_string(),
            line_count: 1
        }
    );
    assert_eq!(app.mode(), &Mode::Normal);
}

#[test]
fn normal_mode_v_starts_visual_selection() {
    let mut app = App::new(10);
    app.push_line("api | INFO one".to_string());

    handle_key(&mut app, key(KeyCode::Char('v')), 5);

    assert_eq!(app.mode(), &Mode::Visual);
    assert_eq!(app.visual_selection_range(), Some((0, 0)));
}

#[test]
fn visual_mode_y_copies_range_and_returns_to_normal() {
    let mut app = App::new(10);
    app.push_line("api | INFO one".to_string());
    app.push_line("web | INFO two".to_string());
    app.push_line("worker | INFO three".to_string());
    app.jump_top();
    app.start_visual_selection();

    handle_key(&mut app, key(KeyCode::Char('j')), 5);
    let outcome = handle_key(&mut app, key(KeyCode::Char('y')), 5);

    assert_eq!(
        outcome,
        KeyOutcome::Copy {
            text: "api | INFO one\nweb | INFO two".to_string(),
            line_count: 2
        }
    );
    assert_eq!(app.mode(), &Mode::Normal);
    assert_eq!(app.visual_selection_range(), None);
}

#[test]
fn visual_mode_escape_cancels_selection() {
    let mut app = App::new(10);
    app.push_line("api | INFO one".to_string());
    app.start_visual_selection();

    handle_key(&mut app, key(KeyCode::Esc), 5);

    assert_eq!(app.mode(), &Mode::Normal);
    assert_eq!(app.visual_selection_range(), None);
}

#[test]
fn property_filter_dialog_searches_and_deletes() {
    let mut app = App::new(10);
    add_include_filter(&mut app, "tenantId=tenant-1");

    app.open_dialog(DialogKind::PropertyFilters);
    handle_key(&mut app, key(KeyCode::Char('t')), 5);
    handle_key(&mut app, key(KeyCode::Char('e')), 5);
    assert_eq!(app.dialog_query(DialogKind::PropertyFilters), "te");

    handle_key(&mut app, key(KeyCode::Backspace), 5);
    assert_eq!(app.dialog_query(DialogKind::PropertyFilters), "t");

    handle_key(&mut app, key(KeyCode::Delete), 5);
    assert!(app.filters().property_includes.is_empty());
    assert_eq!(app.mode(), &Mode::Dialog(DialogKind::PropertyFilters));
}

#[test]
fn property_filter_dialog_backspace_deletes_when_search_is_empty() {
    let mut app = App::new(10);
    add_include_filter(&mut app, "tenantId=tenant-1");

    app.open_dialog(DialogKind::PropertyFilters);
    handle_key(&mut app, key(KeyCode::Backspace), 5);

    assert!(app.filters().property_includes.is_empty());
    assert_eq!(app.mode(), &Mode::Dialog(DialogKind::PropertyFilters));
}

#[test]
fn display_fields_dialog_searches_toggles_and_deletes() {
    let mut app = App::new(10);
    add_display_field_from_selected_property(&mut app);

    app.open_dialog(DialogKind::MessageFields);
    handle_key(&mut app, key(KeyCode::Char('t')), 5);
    assert_eq!(app.dialog_query(DialogKind::MessageFields), "t");

    handle_key(&mut app, key(KeyCode::Backspace), 5);
    assert_eq!(app.dialog_query(DialogKind::MessageFields), "");

    handle_key(&mut app, key(KeyCode::Enter), 5);
    assert!(app.message_field_keys().is_empty());
    handle_key(&mut app, key(KeyCode::Enter), 5);
    assert_eq!(app.message_field_keys(), &["tenantId".to_string()]);
    handle_key(&mut app, key(KeyCode::Delete), 5);
    assert!(app.message_field_keys().is_empty());
    assert_eq!(app.mode(), &Mode::Dialog(DialogKind::MessageFields));
}

#[test]
fn display_fields_dialog_backspace_deletes_when_search_is_empty() {
    let mut app = App::new(10);
    add_display_field_from_selected_property(&mut app);

    app.open_dialog(DialogKind::MessageFields);
    handle_key(&mut app, key(KeyCode::Backspace), 5);

    assert!(app.message_field_keys().is_empty());
    assert_eq!(app.mode(), &Mode::Dialog(DialogKind::MessageFields));
}

#[test]
fn property_filter_dialog_enter_starts_edit_prompt() {
    let mut app = App::new(10);
    add_exclude_filter(&mut app, "debug");

    app.open_dialog(DialogKind::PropertyFilters);
    handle_key(&mut app, key(KeyCode::Enter), 5);

    assert_eq!(app.mode(), &Mode::Prompt(PromptKind::EditPropertyFilter));
    assert_eq!(app.prompt(), "!debug");
}

#[test]
fn property_filter_edit_escape_returns_to_dialog() {
    let mut app = App::new(10);
    add_include_filter(&mut app, "tenantId=tenant-1");

    app.open_dialog(DialogKind::PropertyFilters);
    handle_key(&mut app, key(KeyCode::Enter), 5);
    handle_key(&mut app, key(KeyCode::Esc), 5);

    assert_eq!(app.mode(), &Mode::Dialog(DialogKind::PropertyFilters));
    assert_eq!(app.filters().property_includes.len(), 1);
}

#[test]
fn palette_escape_and_question_mark_close_palette() {
    let mut app = App::new(10);
    app.open_palette();

    handle_key(&mut app, key(KeyCode::Esc), 5);
    assert_eq!(app.mode(), &Mode::Normal);

    app.open_palette();
    handle_key(&mut app, key(KeyCode::Char('?')), 5);
    assert_eq!(app.mode(), &Mode::Normal);
}

#[test]
fn palette_enter_starts_prompt_commands() {
    let mut app = App::new(10);
    assert_palette_prompt(&mut app, CommandAction::Search, PromptKind::Text);
    assert_palette_prompt(&mut app, CommandAction::SourceFilter, PromptKind::Source);
    assert_palette_prompt(&mut app, CommandAction::LevelFilter, PromptKind::Level);
    assert_palette_prompt(
        &mut app,
        CommandAction::IncludeProperty,
        PromptKind::IncludeProperty,
    );
    assert_palette_prompt(
        &mut app,
        CommandAction::ExcludeProperty,
        PromptKind::ExcludeProperty,
    );
}

#[test]
fn palette_enter_can_request_quit() {
    let mut app = App::new(10);
    app.open_palette();
    app.move_palette_down(app.palette_commands().len());

    let outcome = handle_key(&mut app, key(KeyCode::Enter), 5);

    assert_eq!(outcome, KeyOutcome::Quit);
}

fn assert_palette_prompt(app: &mut App, action: CommandAction, expected: PromptKind) {
    app.open_palette();
    move_palette_to_action(app, action);

    handle_key(app, key(KeyCode::Enter), 5);

    assert_eq!(app.mode(), &Mode::Prompt(expected));
    app.cancel_prompt();
}

fn move_palette_to_action(app: &mut App, action: CommandAction) {
    let index = app
        .palette_commands()
        .iter()
        .position(|command| command.action == action)
        .unwrap();
    app.move_palette_up(usize::MAX);
    app.move_palette_down(index);
}

fn add_include_filter(app: &mut App, value: &str) {
    app.start_prompt(PromptKind::IncludeProperty);
    for ch in value.chars() {
        handle_key(app, key(KeyCode::Char(ch)), 5);
    }
    handle_key(app, key(KeyCode::Enter), 5);
}

fn add_exclude_filter(app: &mut App, value: &str) {
    app.start_prompt(PromptKind::ExcludeProperty);
    for ch in value.chars() {
        handle_key(app, key(KeyCode::Char(ch)), 5);
    }
    handle_key(app, key(KeyCode::Enter), 5);
}

fn add_display_field_from_selected_property(app: &mut App) {
    app.push_line("api | INFO request tenantId=tenant-1".to_string());

    handle_key(app, key(KeyCode::Char('m')), 5);
    assert_eq!(app.message_field_keys(), &["tenantId".to_string()]);
}
