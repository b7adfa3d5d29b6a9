use loggle::commands::{
    normal_action_for_key, status_help_items, CommandAction, CommandHelpItem, CommandHelpLevel,
};
use loggle::keys::{KeyCode, KeyEvent, KeyModifiers};

fn key(code: KeyCode) -> KeyEvent {
    KeyEvent::new(code, KeyModifiers::Plain)
}

fn ctrl_key(ch: char) -> KeyEvent {
    KeyEvent::new(KeyCode::Char(ch), KeyModifiers::Control)
}

#[test]
fn normal_key_lookup_returns_catalog_actions() {
    assert_eq!(
        normal_action_for_key(key(KeyCode::Char('/'))),
        Some(CommandAction::Search)
    );
    assert_eq!(
        normal_action_for_key(key(KeyCode::Char('P'))),
        Some(CommandAction::PropertyFilters)
    );
    assert_eq!(
        normal_action_for_key(key(KeyCode::Char(' '))),
        Some(CommandAction::ToggleFollow)
    );
    assert_eq!(
        normal_action_for_key(key(KeyCode::Char('p'))),
        Some(CommandAction::ToggleFollow)
    );
    assert_eq!(
        normal_action_for_key(key(KeyCode::Enter)),
        Some(CommandAction::ToggleDetails)
    );
}

#[test]
fn movement_control_keys_are_not_catalog_commands() {
    assert_eq!(normal_action_for_key(ctrl_key('d')), None);
    assert_eq!(normal_action_for_key(ctrl_key('u')), None);
}

#[test]
fn status_help_uses_catalog_shortcuts() {
    let help = status_help_items(CommandHelpLevel::Full);

    assert_eq!(
        help,
        vec![
            CommandHelpItem {
                shortcut: "q",
                label: "quit"
            },
            CommandHelpItem {
                shortcut: "/",
                label: "search"
            },
            CommandHelpItem {
                shortcut: "s",
                label: "source"
            },
            CommandHelpItem {
                shortcut: "l",
                label: "level"
            },
            CommandHelpItem {
                shortcut: "Enter",
                label: "details"
            },
            CommandHelpItem {
                shortcut: "P",
                label: "props"
            },
            CommandHelpItem {
                shortcut: "c",
                label: "clear"
            },
            CommandHelpItem {
                shortcut: "?",
                label: "commands"
            },
        ]
    );
}
