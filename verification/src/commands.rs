//! The commands of the viewer, their keys and their help.
use crate::keys::{KeyCode, KeyEvent, KeyModifiers};
use vstd::prelude::*;

verus! {

/// What a command does.
#[derive(Debug, Clone, Copy, PartialEq, Eq, Structural)]
pub enum CommandAction {
    Search,
    SourceFilter,
    LevelFilter,
    ToggleDetails,
    CopySelectedLine,
    StartVisualSelection,
    PreviousProperty,
    NextProperty,
    FollowProperty,
    AddMessageField,
    MessageFields,
    PropertyFilters,
    IncludeProperty,
    ExcludeProperty,
    ClearFilters,
    UndoFilterChange,
    SaveFilterPreset,
    FilterPresets,
    ExportVisibleLogs,
    ToggleMarker,
    Sources,
    NextMatch,
    PreviousMatch,
    ToggleFollow,
    JumpTop,
    JumpBottom,
    Quit,
}

/// A command as it is listed.
#[derive(Debug, Clone, Copy, PartialEq, Eq)]
pub struct Command {
    pub shortcut: &'static str,
    pub label: &'static str,
    pub description: &'static str,
    pub action: CommandAction,
}

/// How much help there is room for.
#[derive(Debug, Clone, Copy, PartialEq, Eq, Structural)]
pub enum CommandHelpLevel {
    Full,
    Compact,
}

/// A key and what it does, in a word.
#[derive(Debug, Clone, Copy, PartialEq, Eq)]
pub struct CommandHelpItem {
    pub shortcut: &'static str,
    pub label: &'static str,
}

/// What a command is.
pub struct CommandView {
    pub shortcut: Seq<char>,
    pub label: Seq<char>,
    pub description: Seq<char>,
    pub action: CommandAction,
}

impl View for Command {
    type V = CommandView;

    open spec fn view(&self) -> CommandView {
        CommandView {
            shortcut: self.shortcut@,
            label: self.label@,
            description: self.description@,
            action: self.action,
        }
    }
}

impl View for CommandHelpItem {
    type V = (Seq<char>, Seq<char>);

    open spec fn view(&self) -> (Seq<char>, Seq<char>) {
        (self.shortcut@, self.label@)
    }
}

/// The number of commands.
pub const COMMAND_COUNT: usize = 27;

/// The actions, in the order in which commands are listed.
pub open spec fn actions() -> Seq<CommandAction> {
    seq![
        CommandAction::Search,
        CommandAction::SourceFilter,
        CommandAction::LevelFilter,
        CommandAction::ToggleDetails,
        CommandAction::CopySelectedLine,
        CommandAction::StartVisualSelection,
        CommandAction::PreviousProperty,
        CommandAction::NextProperty,
        CommandAction::FollowProperty,
        CommandAction::AddMessageField,
        CommandAction::MessageFields,
        CommandAction::PropertyFilters,
        CommandAction::IncludeProperty,
        CommandAction::ExcludeProperty,
        CommandAction::ClearFilters,
        CommandAction::UndoFilterChange,
        CommandAction::SaveFilterPreset,
        CommandAction::FilterPresets,
        CommandAction::ExportVisibleLogs,
        CommandAction::ToggleMarker,
        CommandAction::Sources,
        CommandAction::NextMatch,
        CommandAction::PreviousMatch,
        CommandAction::ToggleFollow,
        CommandAction::JumpTop,
        CommandAction::JumpBottom,
        CommandAction::Quit,
    ]
}

/// The keys of a command.
pub open spec fn shortcut_of(action: CommandAction) -> Seq<char> {
    match action {
        CommandAction::Search => "/"@,
        CommandAction::SourceFilter => "s"@,
        CommandAction::LevelFilter => "l"@,
        CommandAction::ToggleDetails => "Enter"@,
        CommandAction::CopySelectedLine => "y"@,
        CommandAction::StartVisualSelection => "v"@,
        CommandAction::PreviousProperty => "["@,
        CommandAction::NextProperty => "]"@,
        CommandAction::FollowProperty => "f"@,
        CommandAction::AddMessageField => "m"@,
        CommandAction::MessageFields => "M"@,
        CommandAction::PropertyFilters => "P"@,
        CommandAction::IncludeProperty => "+"@,
        CommandAction::ExcludeProperty => "-"@,
        CommandAction::ClearFilters => "c"@,
        CommandAction::UndoFilterChange => "u"@,
        CommandAction::SaveFilterPreset => "S"@,
        CommandAction::FilterPresets => "V"@,
        CommandAction::ExportVisibleLogs => "e"@,
        CommandAction::ToggleMarker => "T"@,
        CommandAction::Sources => "O"@,
        CommandAction::NextMatch => "n"@,
        CommandAction::PreviousMatch => "N"@,
        CommandAction::ToggleFollow => "Space/p"@,
        CommandAction::JumpTop => "gg"@,
        CommandAction::JumpBottom => "G"@,
        CommandAction::Quit => "q"@,
    }
}

/// The name of a command.
pub open spec fn label_of(action: CommandAction) -> Seq<char> {
    match action {
        CommandAction::Search => "Search"@,
        CommandAction::SourceFilter => "Source filter"@,
        CommandAction::LevelFilter => "Level filter"@,
        CommandAction::ToggleDetails => "Details"@,
        CommandAction::CopySelectedLine => "Copy line"@,
        CommandAction::StartVisualSelection => "Visual copy"@,
        CommandAction::PreviousProperty => "Previous property"@,
        CommandAction::NextProperty => "Next property"@,
        CommandAction::FollowProperty => "Filter selected value"@,
        CommandAction::AddMessageField => "Pin field column"@,
        CommandAction::MessageFields => "Pinned fields"@,
        CommandAction::PropertyFilters => "Property filters"@,
        CommandAction::IncludeProperty => "Show property filter"@,
        CommandAction::ExcludeProperty => "Hide property filter"@,
        CommandAction::ClearFilters => "Clear filters"@,
        CommandAction::UndoFilterChange => "Undo filter"@,
        CommandAction::SaveFilterPreset => "Save filter preset"@,
        CommandAction::FilterPresets => "Filter presets"@,
        CommandAction::ExportVisibleLogs => "Export visible logs"@,
        CommandAction::ToggleMarker => "Toggle marker"@,
        CommandAction::Sources => "Sources"@,
        CommandAction::NextMatch => "Next match"@,
        CommandAction::PreviousMatch => "Previous match"@,
        CommandAction::ToggleFollow => "Pause or follow"@,
        CommandAction::JumpTop => "Top"@,
        CommandAction::JumpBottom => "Bottom"@,
        CommandAction::Quit => "Quit"@,
    }
}

/// What a command does, in words.
pub open spec fn description_of(action: CommandAction) -> Seq<char> {
    match action {
        CommandAction::Search => "Set text filter and search query"@,
        CommandAction::SourceFilter => "Filter rows by service or source"@,
        CommandAction::LevelFilter => "Filter rows by log level"@,
        CommandAction::ToggleDetails => "Open or close details for the selected row"@,
        CommandAction::CopySelectedLine => "Copy the selected raw log line to the clipboard"@,
        CommandAction::StartVisualSelection => "Select visible log lines; press y to copy the range"@,
        CommandAction::PreviousProperty => "Move to the previous property in details"@,
        CommandAction::NextProperty => "Move to the next property in details"@,
        CommandAction::FollowProperty => "Show rows with the selected property's exact value"@,
        CommandAction::AddMessageField => "Pin the selected property as a stable log-row column"@,
        CommandAction::MessageFields => "View, search, and remove pinned field columns"@,
        CommandAction::PropertyFilters => "View, search, edit, and delete property filters"@,
        CommandAction::IncludeProperty => "Show rows matching a property filter"@,
        CommandAction::ExcludeProperty => "Hide rows matching a property filter"@,
        CommandAction::ClearFilters => "Remove search, source, level, and property filters"@,
        CommandAction::UndoFilterChange => "Restore the previous filter state"@,
        CommandAction::SaveFilterPreset => "Save the current filters as an in-session preset"@,
        CommandAction::FilterPresets => "Search and restore saved filter presets"@,
        CommandAction::ExportVisibleLogs => "Write the current visible log rows to loggle-export.log"@,
        CommandAction::ToggleMarker => "Mark or unmark the selected log row"@,
        CommandAction::Sources => "Show observed source counts and recent status"@,
        CommandAction::NextMatch => "Jump to the next row matching the search query"@,
        CommandAction::PreviousMatch => "Jump to the previous row matching the search query"@,
        CommandAction::ToggleFollow => "Toggle live following at the bottom"@,
        CommandAction::JumpTop => "Jump to the first visible row"@,
        CommandAction::JumpBottom => "Jump to the newest visible row and follow"@,
        CommandAction::Quit => "Exit loggle"@,
    }
}

/// The command with an action.
pub open spec fn command_of(action: CommandAction) -> CommandView {
    CommandView {
        shortcut: shortcut_of(action),
        label: label_of(action),
        description: description_of(action),
        action,
    }
}

/// The commands, as they are listed.
pub open spec fn commands() -> Seq<CommandView> {
    Seq::new(actions().len(), |i: int| command_of(actions()[i]))
}

/// The command with an action.
pub fn command_for_action(action: CommandAction) -> (result: Option<Command>)
    ensures
        match result {
            Some(command) => command@ == command_of(action),
            None => false,
        },
{
    let (shortcut, label, description) = match action {
        CommandAction::Search => (
            "/",
            "Search",
            "Set text filter and search query",
        ),
        CommandAction::SourceFilter => (
            "s",
            "Source filter",
            "Filter rows by service or source",
        ),
        CommandAction::LevelFilter => (
            "l",
            "Level filter",
            "Filter rows by log level",
        ),
        CommandAction::ToggleDetails => (
            "Enter",
            "Details",
            "Open or close details for the selected row",
        ),
        CommandAction::CopySelectedLine => (
            "y",
            "Copy line",
            "Copy the selected raw log line to the clipboard",
        ),
        CommandAction::StartVisualSelection => (
            "v",
            "Visual copy",
            "Select visible log lines; press y to copy the range",
        ),
        CommandAction::PreviousProperty => (
            "[",
            "Previous property",
            "Move to the previous property in details",
        ),
        CommandAction::NextProperty => (
            "]",
            "Next property",
            "Move to the next property in details",
        ),
        CommandAction::FollowProperty => (
            "f",
            "Filter selected value",
            "Show rows with the selected property's exact value",
        ),
        CommandAction::AddMessageField => (
            "m",
            "Pin field column",
            "Pin the selected property as a stable log-row column",
        ),
        CommandAction::MessageFields => (
            "M",
            "Pinned fields",
            "View, search, and remove pinned field columns",
        ),
        CommandAction::PropertyFilters => (
            "P",
            "Property filters",
            "View, search, edit, and delete property filters",
        ),
        CommandAction::IncludeProperty => (
            "+",
            "Show property filter",
            "Show rows matching a property filter",
        ),
        CommandAction::ExcludeProperty => (
            "-",
            "Hide property filter",
            "Hide rows matching a property filter",
        ),
        CommandAction::ClearFilters => (
            "c",
            "Clear filters",
            "Remove search, source, level, and property filters",
        ),
        CommandAction::UndoFilterChange => (
            "u",
            "Undo filter",
            "Restore the previous filter state",
        ),
        CommandAction::SaveFilterPreset => (
            "S",
            "Save filter preset",
            "Save the current filters as an in-session preset",
        ),
        CommandAction::FilterPresets => (
            "V",
            "Filter presets",
            "Search and restore saved filter presets",
        ),
        CommandAction::ExportVisibleLogs => (
            "e",
            "Export visible logs",
            "Write the current visible log rows to loggle-export.log",
        ),
        CommandAction::ToggleMarker => (
            "T",
            "Toggle marker",
            "Mark or unmark the selected log row",
        ),
        CommandAction::Sources => (
            "O",
            "Sources",
            "Show observed source counts and recent status",
        ),
        CommandAction::NextMatch => (
            "n",
            "Next match",
            "Jump to the next row matching the search query",
        ),
        CommandAction::PreviousMatch => (
            "N",
            "Previous match",
            "Jump to the previous row matching the search query",
        ),
        CommandAction::ToggleFollow => (
            "Space/p",
            "Pause or follow",
            "Toggle live following at the bottom",
        ),
        CommandAction::JumpTop => (
            "gg",
            "Top",
            "Jump to the first visible row",
        ),
        CommandAction::JumpBottom => (
            "G",
            "Bottom",
            "Jump to the newest visible row and follow",
        ),
        CommandAction::Quit => (
            "q",
            "Quit",
            "Exit loggle",
        ),
    };
    Some(Command { shortcut, label, description, action })
}

/// The action at a place of the list.
pub fn action_at(index: usize) -> (result: Option<CommandAction>)
    ensures
        result == if index < actions().len() {
            Some(actions()[index as int])
        } else {
            None
        },
        actions().len() == COMMAND_COUNT,
{
    match index {
        0 => Some(CommandAction::Search),
        1 => Some(CommandAction::SourceFilter),
        2 => Some(CommandAction::LevelFilter),
        3 => Some(CommandAction::ToggleDetails),
        4 => Some(CommandAction::CopySelectedLine),
        5 => Some(CommandAction::StartVisualSelection),
        6 => Some(CommandAction::PreviousProperty),
        7 => Some(CommandAction::NextProperty),
        8 => Some(CommandAction::FollowProperty),
        9 => Some(CommandAction::AddMessageField),
        10 => Some(CommandAction::MessageFields),
        11 => Some(CommandAction::PropertyFilters),
        12 => Some(CommandAction::IncludeProperty),
        13 => Some(CommandAction::ExcludeProperty),
        14 => Some(CommandAction::ClearFilters),
        15 => Some(CommandAction::UndoFilterChange),
        16 => Some(CommandAction::SaveFilterPreset),
        17 => Some(CommandAction::FilterPresets),
        18 => Some(CommandAction::ExportVisibleLogs),
        19 => Some(CommandAction::ToggleMarker),
        20 => Some(CommandAction::Sources),
        21 => Some(CommandAction::NextMatch),
        22 => Some(CommandAction::PreviousMatch),
        23 => Some(CommandAction::ToggleFollow),
        24 => Some(CommandAction::JumpTop),
        25 => Some(CommandAction::JumpBottom),
        26 => Some(CommandAction::Quit),
        _ => None,
    }
}

/// The commands, as they are listed.
pub fn all_commands() -> (result: Vec<Command>)
    ensures
        crate::text::views(result@) == commands(),
{
    let ghost all = commands();
    let mut result: Vec<Command> = Vec::new();
    let mut i: usize = 0;
    assert(crate::text::views(result@) =~= all.take(0));
    assert(actions().len() == COMMAND_COUNT);
    while i < COMMAND_COUNT
        invariant
            i <= COMMAND_COUNT,
            all == commands(),
            all.len() == COMMAND_COUNT,
            crate::text::views(result@) == all.take(i as int),
        decreases COMMAND_COUNT - i,
    {
        match action_at(i) {
            Some(action) => {
                match command_for_action(action) {
                    Some(command) => {
                        let ghost before = result@;
                        assert(command@ == all[i as int]);
                        result.push(command);
                        assert(crate::text::views(result@) =~= crate::text::views(before).push(
                            command@,
                        ));
                        assert(all.take(i + 1) =~= all.take(i as int).push(all[i as int]));
                    },
                    None => {},
                }
            },
            None => {},
        }
        i += 1;
    }
    assert(all.take(i as int) =~= all);
    result
}

/// The command that a key stands for.
pub open spec fn key_action(key: KeyEvent) -> Option<CommandAction> {
    match key.code {
        KeyCode::Enter => Some(CommandAction::ToggleDetails),
        KeyCode::Char(c) => if (c == 'd' || c == 'u') && key.modifiers == KeyModifiers::Control {
            None
        } else if c == 'q' {
            Some(CommandAction::Quit)
        } else if c == 'G' {
            Some(CommandAction::JumpBottom)
        } else if c == 'y' {
            Some(CommandAction::CopySelectedLine)
        } else if c == 'v' {
            Some(CommandAction::StartVisualSelection)
        } else if c == '/' {
            Some(CommandAction::Search)
        } else if c == 's' {
            Some(CommandAction::SourceFilter)
        } else if c == 'l' {
            Some(CommandAction::LevelFilter)
        } else if c == '+' {
            Some(CommandAction::IncludeProperty)
        } else if c == '-' {
            Some(CommandAction::ExcludeProperty)
        } else if c == 'f' {
            Some(CommandAction::FollowProperty)
        } else if c == 'm' {
            Some(CommandAction::AddMessageField)
        } else if c == 'M' {
            Some(CommandAction::MessageFields)
        } else if c == 'P' {
            Some(CommandAction::PropertyFilters)
        } else if c == ']' {
            Some(CommandAction::NextProperty)
        } else if c == '[' {
            Some(CommandAction::PreviousProperty)
        } else if c == 'c' {
            Some(CommandAction::ClearFilters)
        } else if c == 'u' {
            Some(CommandAction::UndoFilterChange)
        } else if c == 'S' {
            Some(CommandAction::SaveFilterPreset)
        } else if c == 'V' {
            Some(CommandAction::FilterPresets)
        } else if c == 'e' {
            Some(CommandAction::ExportVisibleLogs)
        } else if c == 'T' {
            Some(CommandAction::ToggleMarker)
        } else if c == 'O' {
            Some(CommandAction::Sources)
        } else if c == ' ' || c == 'p' {
            Some(CommandAction::ToggleFollow)
        } else if c == 'n' {
            Some(CommandAction::NextMatch)
        } else if c == 'N' {
            Some(CommandAction::PreviousMatch)
        } else {
            None
        },
        _ => None,
    }
}

/// The command that a key stands for.
pub fn normal_action_for_key(key: KeyEvent) -> (result: Option<CommandAction>)
    ensures
        result == key_action(key),
{
    match key.code {
        KeyCode::Enter => Some(CommandAction::ToggleDetails),
        KeyCode::Char(c) => {
            if (c == 'd' || c == 'u') && key.modifiers == KeyModifiers::Control {
                return None;
            }
            match c {
                'q' => Some(CommandAction::Quit),
                'G' => Some(CommandAction::JumpBottom),
                'y' => Some(CommandAction::CopySelectedLine),
                'v' => Some(CommandAction::StartVisualSelection),
                '/' => Some(CommandAction::Search),
                's' => Some(CommandAction::SourceFilter),
                'l' => Some(CommandAction::LevelFilter),
                '+' => Some(CommandAction::IncludeProperty),
                '-' => Some(CommandAction::ExcludeProperty),
                'f' => Some(CommandAction::FollowProperty),
                'm' => Some(CommandAction::AddMessageField),
                'M' => Some(CommandAction::MessageFields),
                'P' => Some(CommandAction::PropertyFilters),
                ']' => Some(CommandAction::NextProperty),
                '[' => Some(CommandAction::PreviousProperty),
                'c' => Some(CommandAction::ClearFilters),
                'u' => Some(CommandAction::UndoFilterChange),
                'S' => Some(CommandAction::SaveFilterPreset),
                'V' => Some(CommandAction::FilterPresets),
                'e' => Some(CommandAction::ExportVisibleLogs),
                'T' => Some(CommandAction::ToggleMarker),
                'O' => Some(CommandAction::Sources),
                ' ' | 'p' => Some(CommandAction::ToggleFollow),
                'n' => Some(CommandAction::NextMatch),
                'N' => Some(CommandAction::PreviousMatch),
                _ => None,
            }
        },
        _ => None,
    }
}

/// What a command does, in a word.
pub open spec fn help_label(action: CommandAction) -> Seq<char> {
    match action {
        CommandAction::Search => "search"@,
        CommandAction::SourceFilter => "source"@,
        CommandAction::LevelFilter => "level"@,
        CommandAction::ToggleDetails => "details"@,
        CommandAction::PropertyFilters => "props"@,
        CommandAction::ClearFilters => "clear"@,
        CommandAction::Quit => "quit"@,
        _ => label_of(action),
    }
}

/// The commands that the status line names.
pub open spec fn help_actions(level: CommandHelpLevel) -> Seq<CommandAction> {
    match level {
        CommandHelpLevel::Full => seq![
            CommandAction::Quit,
            CommandAction::Search,
            CommandAction::SourceFilter,
            CommandAction::LevelFilter,
            CommandAction::ToggleDetails,
            CommandAction::PropertyFilters,
            CommandAction::ClearFilters,
        ],
        CommandHelpLevel::Compact => seq![
            CommandAction::Quit,
            CommandAction::Search,
            CommandAction::ClearFilters,
        ],
    }
}

/// The help of some commands.
pub open spec fn help_of(actions: Seq<CommandAction>) -> Seq<(Seq<char>, Seq<char>)> {
    Seq::new(actions.len(), |i: int| (shortcut_of(actions[i]), help_label(actions[i])))
}

/// The help that the status line shows.
pub open spec fn status_help(level: CommandHelpLevel) -> Seq<(Seq<char>, Seq<char>)> {
    help_of(help_actions(level)).push(("?"@, "commands"@))
}

fn status_help_label(action: CommandAction) -> (result: &'static str)
    ensures
        result@ == help_label(action),
{
    match action {
        CommandAction::Search => "search",
        CommandAction::SourceFilter => "source",
        CommandAction::LevelFilter => "level",
        CommandAction::ToggleDetails => "details",
        CommandAction::PropertyFilters => "props",
        CommandAction::ClearFilters => "clear",
        CommandAction::Quit => "quit",
        _ => match command_for_action(action) {
            Some(command) => command.label,
            None => "command",
        },
    }
}

fn push_help_item(items: &mut Vec<CommandHelpItem>, action: CommandAction)
    ensures
        crate::text::views(final(items)@) == crate::text::views(old(items)@).push(
            (shortcut_of(action), help_label(action)),
        ),
{
    match command_for_action(action) {
        Some(command) => {
            let item = CommandHelpItem {
                shortcut: command.shortcut,
                label: status_help_label(action),
            };
            items.push(item);
            assert(crate::text::views(items@) =~= crate::text::views(old(items)@).push(item@));
        },
        None => {},
    }
}

/// The help that the status line shows.
pub fn status_help_items(level: CommandHelpLevel) -> (result: Vec<CommandHelpItem>)
    ensures
        crate::text::views(result@) == status_help(level),
{
    let mut items: Vec<CommandHelpItem> = Vec::new();
    match level {
        CommandHelpLevel::Full => {
            push_help_item(&mut items, CommandAction::Quit);
            push_help_item(&mut items, CommandAction::Search);
            push_help_item(&mut items, CommandAction::SourceFilter);
            push_help_item(&mut items, CommandAction::LevelFilter);
            push_help_item(&mut items, CommandAction::ToggleDetails);
            push_help_item(&mut items, CommandAction::PropertyFilters);
            push_help_item(&mut items, CommandAction::ClearFilters);
        },
        CommandHelpLevel::Compact => {
            push_help_item(&mut items, CommandAction::Quit);
            push_help_item(&mut items, CommandAction::Search);
            push_help_item(&mut items, CommandAction::ClearFilters);
        },
    }
    assert(crate::text::views(items@) =~= help_of(help_actions(level)));
    let ghost before = items@;
    items.push(CommandHelpItem { shortcut: "?", label: "commands" });
    assert(crate::text::views(items@) =~= status_help(level));
    items
}

/// Every listed command is found by its action, and no action is listed twice.
pub proof fn law_actions_are_listed_once(action: CommandAction)
    ensures
        exists|i: int| 0 <= i < actions().len() && #[trigger] actions()[i] == action,
        forall|i: int, j: int|
            0 <= i < j < actions().len() ==> #[trigger] actions()[i] != #[trigger] actions()[j],
{
    let all = actions();
    match action {
        CommandAction::Search => assert(all[0] == action),
        CommandAction::SourceFilter => assert(all[1] == action),
        CommandAction::LevelFilter => assert(all[2] == action),
        CommandAction::ToggleDetails => assert(all[3] == action),
        CommandAction::CopySelectedLine => assert(all[4] == action),
        CommandAction::StartVisualSelection => assert(all[5] == action),
        CommandAction::PreviousProperty => assert(all[6] == action),
        CommandAction::NextProperty => assert(all[7] == action),
        CommandAction::FollowProperty => assert(all[8] == action),
        CommandAction::AddMessageField => assert(all[9] == action),
        CommandAction::MessageFields => assert(all[10] == action),
        CommandAction::PropertyFilters => assert(all[11] == action),
        CommandAction::IncludeProperty => assert(all[12] == action),
        CommandAction::ExcludeProperty => assert(all[13] == action),
        CommandAction::ClearFilters => assert(all[14] == action),
        CommandAction::UndoFilterChange => assert(all[15] == action),
        CommandAction::SaveFilterPreset => assert(all[16] == action),
        CommandAction::FilterPresets => assert(all[17] == action),
        CommandAction::ExportVisibleLogs => assert(all[18] == action),
        CommandAction::ToggleMarker => assert(all[19] == action),
        CommandAction::Sources => assert(all[20] == action),
        CommandAction::NextMatch => assert(all[21] == action),
        CommandAction::PreviousMatch => assert(all[22] == action),
        CommandAction::ToggleFollow => assert(all[23] == action),
        CommandAction::JumpTop => assert(all[24] == action),
        CommandAction::JumpBottom => assert(all[25] == action),
        CommandAction::Quit => assert(all[26] == action),
    }
}

} // verus!
