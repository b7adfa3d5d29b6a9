//! What keys do to the viewer.
use crate::app::state::{AppView, YankView};
use crate::app::visible::{self, VisibleView};
use crate::app::{App, DialogKind, Mode, PromptKind, YankedLines};
use crate::buffer::keep;
use crate::commands::{self, normal_action_for_key, CommandAction, COMMAND_COUNT};
use crate::keys::{KeyCode, KeyEvent, KeyModifiers};
use crate::text;
use vstd::prelude::*;

verus! {

/// Whether a key asks to leave at once while commands end.
pub fn closing_key_quits(key: KeyEvent) -> (result: bool)
    ensures
        result == (key.code == KeyCode::Char('q')),
{
    match key.code {
        KeyCode::Char(c) => c == 'q',
        _ => false,
    }
}

/// What is left to be done after a key.
#[derive(Debug, PartialEq, Eq)]
pub enum KeyOutcome {
    Continue,
    Copy { text: String, line_count: usize },
    Export,
    Quit,
}

/// What an outcome is.
pub enum OutcomeView {
    Continue,
    Copy(YankView),
    Export,
    Quit,
}

impl View for KeyOutcome {
    type V = OutcomeView;

    open spec fn view(&self) -> OutcomeView {
        match self {
            KeyOutcome::Continue => OutcomeView::Continue,
            KeyOutcome::Copy { text, line_count } => OutcomeView::Copy(
                YankView { text: text@, count: *line_count as int },
            ),
            KeyOutcome::Export => OutcomeView::Export,
            KeyOutcome::Quit => OutcomeView::Quit,
        }
    }
}

/// The outcome of taking text to be copied.
pub open spec fn copied(yank: Option<YankView>) -> OutcomeView {
    match yank {
        Some(yank) => OutcomeView::Copy(yank),
        None => OutcomeView::Continue,
    }
}

/// Whether a character is typed as text.
pub open spec fn is_typed(modifiers: KeyModifiers) -> bool {
    modifiers == KeyModifiers::Plain || modifiers == KeyModifiers::Shift
}

/// Whether a key moves down by one.
pub open spec fn goes_down(code: KeyCode) -> bool {
    code == KeyCode::Char('j') || code == KeyCode::Down
}

/// Whether a key moves up by one.
pub open spec fn goes_up(code: KeyCode) -> bool {
    code == KeyCode::Char('k') || code == KeyCode::Up
}

/// Whether a key moves down by half a page.
pub open spec fn pages_down(key: KeyEvent) -> bool {
    key.code == KeyCode::Char('d') && key.modifiers == KeyModifiers::Control
}

/// Whether a key moves up by half a page.
pub open spec fn pages_up(key: KeyEvent) -> bool {
    key.code == KeyCode::Char('u') && key.modifiers == KeyModifiers::Control
}

/// How far a key moves the selection: down where positive.
pub open spec fn step(key: KeyEvent, half_page: int) -> Option<(bool, int)> {
    if goes_down(key.code) {
        Some((true, 1))
    } else if goes_up(key.code) {
        Some((false, 1))
    } else if pages_down(key) {
        Some((true, half_page))
    } else if pages_up(key) {
        Some((false, half_page))
    } else {
        None
    }
}

/// The selection moved by a step.
pub open spec fn stepped(app: AppView, down: bool, amount: int) -> AppView {
    app.moved(
        if down {
            app.visible.moved_down(app.count(), amount)
        } else {
            app.visible.moved_up(amount)
        },
    )
}

/// Nothing waits for another key.
pub open spec fn idle(app: AppView) -> AppView {
    AppView { pending_g: false, ..app }
}

/// A key in the prompt.
pub open spec fn prompt_key(app: AppView, key: KeyEvent) -> AppView {
    match key.code {
        KeyCode::Esc => app.prompt_cancelled(),
        KeyCode::Enter => app.prompt_applied(),
        KeyCode::Backspace => AppView {
            prompt: if app.prompt.len() > 0 {
                app.prompt.drop_last()
            } else {
                app.prompt
            },
            ..app
        },
        KeyCode::Char(value) => if is_typed(key.modifiers) {
            AppView { prompt: app.prompt.push(value), ..app }
        } else {
            app
        },
        _ => app,
    }
}

/// A key in normal mode.
pub open spec fn normal_key(app: AppView, key: KeyEvent, half_page: int) -> (AppView, OutcomeView) {
    match step(key, half_page) {
        Some((down, amount)) => (stepped(app, down, amount), OutcomeView::Continue),
        None => if key.code == KeyCode::Char('g') {
            (app.g_pressed(), OutcomeView::Continue)
        } else if key.code == KeyCode::Char('?') {
            (
                if app.mode == Mode::Palette {
                    app.closed()
                } else {
                    app.palette_opened()
                },
                OutcomeView::Continue,
            )
        } else if key.code == KeyCode::Esc {
            (idle(app), OutcomeView::Continue)
        } else {
            match commands::key_action(key) {
                Some(action) => executed(app, action),
                None => (idle(app), OutcomeView::Continue),
            }
        },
    }
}

/// A key in visual mode.
pub open spec fn visual_key(app: AppView, key: KeyEvent, half_page: int) -> (AppView, OutcomeView) {
    if key.code == KeyCode::Char('y') {
        (app.visual_ended(), copied(app.visual_yank()))
    } else if key.code == KeyCode::Esc || key.code == KeyCode::Char('v') {
        (app.visual_ended(), OutcomeView::Continue)
    } else {
        match step(key, half_page) {
            Some((down, amount)) => (stepped(app, down, amount), OutcomeView::Continue),
            None => if key.code == KeyCode::Char('g') {
                (app.g_pressed(), OutcomeView::Continue)
            } else if key.code == KeyCode::Char('G') {
                (
                    app.moved(
                        VisibleView {
                            follow: false,
                            selected: visible::above(app.count(), 1),
                            ..app.visible
                        },
                    ),
                    OutcomeView::Continue,
                )
            } else {
                (idle(app), OutcomeView::Continue)
            },
        }
    }
}

/// Whether the delete key deletes the selected row of a dialog: always in the
/// lists of conditions and shown fields, elsewhere while nothing is searched.
pub open spec fn deletes_row(app: AppView, kind: DialogKind) -> bool {
    kind == DialogKind::PropertyFilters || kind == DialogKind::MessageFields || app.list(
        kind,
    ).query.len() == 0
}

/// A key in a dialog.
pub open spec fn dialog_key(
    app: AppView,
    kind: DialogKind,
    key: KeyEvent,
    half_page: int,
) -> AppView {
    if key.code == KeyCode::Esc {
        app.closed()
    } else {
        match step(key, half_page) {
            Some((down, amount)) => app.with_list(
                kind,
                if down {
                    app.list(kind).moved_down(amount, app.dialog_len(kind))
                } else {
                    app.list(kind).moved_up(amount)
                },
            ),
            None => match key.code {
                KeyCode::Backspace => if app.list(kind).query.len() == 0 {
                    app.row_deleted(kind)
                } else {
                    app.queried(kind, app.list(kind).erased())
                },
                KeyCode::Delete => if deletes_row(app, kind) {
                    app.row_deleted(kind)
                } else {
                    app
                },
                KeyCode::Enter => app.row_activated(kind),
                KeyCode::Char(value) => if is_typed(key.modifiers) {
                    app.queried(kind, app.list(kind).typed(value))
                } else {
                    app
                },
                _ => app,
            },
        }
    }
}

/// A key in the palette.
pub open spec fn palette_key(app: AppView, key: KeyEvent, half_page: int) -> (
    AppView,
    OutcomeView,
) {
    if key.code == KeyCode::Esc || key.code == KeyCode::Char('?') {
        (app.closed(), OutcomeView::Continue)
    } else {
        match step(key, half_page) {
            Some((down, amount)) => (
                AppView {
                    palette: if down {
                        app.palette.moved_down(amount, COMMAND_COUNT as int)
                    } else {
                        app.palette.moved_up(amount)
                    },
                    ..app
                },
                OutcomeView::Continue,
            ),
            None => if key.code == KeyCode::Enter {
                if 0 <= app.palette.selected < commands::actions().len() {
                    executed(app.closed(), commands::actions()[app.palette.selected])
                } else {
                    (app.closed(), OutcomeView::Continue)
                }
            } else {
                (app, OutcomeView::Continue)
            },
        }
    }
}

/// A command carried out.
pub open spec fn executed(app: AppView, action: CommandAction) -> (AppView, OutcomeView) {
    match action {
        CommandAction::Quit => (app, OutcomeView::Quit),
        CommandAction::ExportVisibleLogs => (app, OutcomeView::Export),
        CommandAction::CopySelectedLine => (
            app,
            copied(
                match app.event() {
                    Some(event) => Some(YankView { text: event.raw, count: 1 }),
                    None => None,
                },
            ),
        ),
        _ => (commanded(app, action), OutcomeView::Continue),
    }
}

/// What a command makes of the viewer.
#[verifier::opaque]
pub open spec fn commanded(app: AppView, action: CommandAction) -> AppView {
    match action {
        CommandAction::Search => app.prompting(PromptKind::Text),
        CommandAction::SourceFilter => app.prompting(PromptKind::Source),
        CommandAction::LevelFilter => app.prompting(PromptKind::Level),
        CommandAction::ToggleDetails => app.details_toggled(),
        CommandAction::StartVisualSelection => app.visual_started(),
        CommandAction::PreviousProperty => app.property_reversed(),
        CommandAction::NextProperty => app.property_advanced(),
        CommandAction::FollowProperty => app.property_followed(),
        CommandAction::AddMessageField => app.field_added(),
        CommandAction::MessageFields => app.dialog_opened(DialogKind::MessageFields),
        CommandAction::PropertyFilters => app.dialog_opened(DialogKind::PropertyFilters),
        CommandAction::IncludeProperty => app.prompting(PromptKind::IncludeProperty),
        CommandAction::ExcludeProperty => app.prompting(PromptKind::ExcludeProperty),
        CommandAction::ClearFilters => app.filters_cleared(),
        CommandAction::UndoFilterChange => app.filter_undone(),
        CommandAction::SaveFilterPreset => app.preset_saved(),
        CommandAction::FilterPresets => app.dialog_opened(DialogKind::FilterPresets),
        CommandAction::ToggleMarker => app.marker_toggled(),
        CommandAction::Sources => app.dialog_opened(DialogKind::Sources),
        CommandAction::NextMatch => app.searched(true),
        CommandAction::PreviousMatch => app.searched(false),
        CommandAction::ToggleFollow => app.follow_toggled(),
        CommandAction::JumpTop => app.at_top(),
        CommandAction::JumpBottom => app.at_bottom(),
        _ => app,
    }
}

/// A key, in whatever mode the viewer is.
pub open spec fn pressed(app: AppView, key: KeyEvent, half_page: int) -> (AppView, OutcomeView) {
    let app = AppView { notice: None, ..app };
    match app.mode {
        Mode::Prompt(_) => (prompt_key(app, key), OutcomeView::Continue),
        Mode::Palette => palette_key(app, key, half_page),
        Mode::Dialog(kind) => (dialog_key(app, kind, key, half_page), OutcomeView::Continue),
        Mode::Visual => visual_key(app, key, half_page),
        Mode::Normal => normal_key(app, key, half_page),
    }
}

fn key_is_typed(modifiers: KeyModifiers) -> (result: bool)
    ensures
        result == is_typed(modifiers),
{
    modifiers == KeyModifiers::Plain || modifiers == KeyModifiers::Shift
}

fn key_step(key: KeyEvent, half_page: usize) -> (result: Option<(bool, usize)>)
    ensures
        match result {
            Some((down, amount)) => step(key, half_page as int) == Some((down, amount as int)),
            None => step(key, half_page as int) is None,
        },
{
    match key.code {
        KeyCode::Char('j') | KeyCode::Down => Some((true, 1)),
        KeyCode::Char('k') | KeyCode::Up => Some((false, 1)),
        KeyCode::Char('d') if key.modifiers == KeyModifiers::Control => Some((true, half_page)),
        KeyCode::Char('u') if key.modifiers == KeyModifiers::Control => Some((false, half_page)),
        _ => None,
    }
}

fn move_selection(app: &mut App, down: bool, amount: usize)
    requires
        old(app).wf(),
    ensures
        final(app)@ == stepped(old(app)@, down, amount as int),
        final(app).wf(),
{
    if down {
        app.move_down(amount);
    } else {
        app.move_up(amount);
    }
}

/// Takes a key.
pub fn handle_key(app: &mut App, key: KeyEvent, half_page: usize) -> (outcome: KeyOutcome)
    requires
        old(app).wf(),
    ensures
        (final(app)@, outcome@) == pressed(old(app)@, key, half_page as int),
        final(app).wf(),
{
    app.clear_notice();
    match *app.mode() {
        Mode::Prompt(_) => {
            handle_prompt_key(app, key);
            KeyOutcome::Continue
        },
        Mode::Palette => handle_palette_key(app, key, half_page),
        Mode::Dialog(kind) => {
            handle_dialog_key(app, kind, key, half_page);
            KeyOutcome::Continue
        },
        Mode::Visual => handle_visual_key(app, key, half_page),
        Mode::Normal => handle_normal_key(app, key, half_page),
    }
}

fn handle_prompt_key(app: &mut App, key: KeyEvent)
    requires
        old(app).wf(),
    ensures
        final(app)@ == prompt_key(old(app)@, key),
        final(app).wf(),
{
    match key.code {
        KeyCode::Esc => app.cancel_prompt(),
        KeyCode::Enter => app.apply_prompt(),
        KeyCode::Backspace => app.pop_prompt_char(),
        KeyCode::Char(value) => {
            if key_is_typed(key.modifiers) {
                app.push_prompt_char(value);
            }
        },
        _ => {},
    }
}

fn handle_normal_key(app: &mut App, key: KeyEvent, half_page: usize) -> (outcome: KeyOutcome)
    requires
        old(app).wf(),
    ensures
        (final(app)@, outcome@) == normal_key(old(app)@, key, half_page as int),
        final(app).wf(),
{
    match key_step(key, half_page) {
        Some((down, amount)) => {
            move_selection(app, down, amount);
            return KeyOutcome::Continue;
        },
        None => {},
    }
    match key.code {
        KeyCode::Char('g') => app.handle_g(),
        KeyCode::Char('?') => app.toggle_palette(),
        KeyCode::Esc => app.clear_transient(),
        _ => {
            match normal_action_for_key(key) {
                Some(action) => {
                    return execute_command(app, action);
                },
                None => app.clear_transient(),
            }
        },
    }
    KeyOutcome::Continue
}

fn handle_visual_key(app: &mut App, key: KeyEvent, half_page: usize) -> (outcome: KeyOutcome)
    requires
        old(app).wf(),
    ensures
        (final(app)@, outcome@) == visual_key(old(app)@, key, half_page as int),
        final(app).wf(),
{
    match key.code {
        KeyCode::Char('y') => {
            return copy_outcome(app.yank_visual_selection());
        },
        KeyCode::Esc | KeyCode::Char('v') => {
            app.cancel_visual_selection();
            return KeyOutcome::Continue;
        },
        _ => {},
    }
    match key_step(key, half_page) {
        Some((down, amount)) => {
            move_selection(app, down, amount);
            return KeyOutcome::Continue;
        },
        None => {},
    }
    match key.code {
        KeyCode::Char('g') => app.handle_g(),
        KeyCode::Char('G') => app.move_to_last_visible(),
        _ => app.clear_transient(),
    }
    KeyOutcome::Continue
}

fn delete_key_removes_dialog_row(app: &App, kind: DialogKind) -> (result: bool)
    ensures
        result == deletes_row(app@, kind),
{
    kind == DialogKind::PropertyFilters || kind == DialogKind::MessageFields || app.dialog_query(
        kind,
    ).is_empty()
}

fn handle_dialog_key(app: &mut App, kind: DialogKind, key: KeyEvent, half_page: usize)
    requires
        old(app).wf(),
    ensures
        final(app)@ == dialog_key(old(app)@, kind, key, half_page as int),
        final(app).wf(),
{
    if key.code == KeyCode::Esc {
        app.close_dialog();
        return ;
    }
    match key_step(key, half_page) {
        Some((down, amount)) => {
            if down {
                app.move_dialog_down(kind, amount);
            } else {
                app.move_dialog_up(kind, amount);
            }
            return ;
        },
        None => {},
    }
    match key.code {
        KeyCode::Backspace => {
            if app.dialog_query(kind).is_empty() {
                app.delete_selected_dialog_row(kind);
            } else {
                app.pop_dialog_query_char(kind);
            }
        },
        KeyCode::Delete => {
            if delete_key_removes_dialog_row(app, kind) {
                app.delete_selected_dialog_row(kind);
            }
        },
        KeyCode::Enter => app.activate_selected_dialog_row(kind),
        KeyCode::Char(value) => {
            if key_is_typed(key.modifiers) {
                app.push_dialog_query_char(kind, value);
            }
        },
        _ => {},
    }
}

fn handle_palette_key(app: &mut App, key: KeyEvent, half_page: usize) -> (outcome: KeyOutcome)
    requires
        old(app).wf(),
    ensures
        (final(app)@, outcome@) == palette_key(old(app)@, key, half_page as int),
        final(app).wf(),
{
    match key.code {
        KeyCode::Esc | KeyCode::Char('?') => {
            app.close_palette();
            return KeyOutcome::Continue;
        },
        _ => {},
    }
    match key_step(key, half_page) {
        Some((down, amount)) => {
            if down {
                app.move_palette_down(amount);
            } else {
                app.move_palette_up(amount);
            }
            return KeyOutcome::Continue;
        },
        None => {},
    }
    if key.code == KeyCode::Enter {
        let command = app.selected_palette_command();
        app.close_palette();
        match command {
            Some(command) => {
                return execute_command(app, command.action);
            },
            None => {},
        }
    }
    KeyOutcome::Continue
}

fn execute_command(app: &mut App, action: CommandAction) -> (outcome: KeyOutcome)
    requires
        old(app).wf(),
    ensures
        (final(app)@, outcome@) == executed(old(app)@, action),
        final(app).wf(),
{
    proof {
        reveal(commanded);
    }
    match action {
        CommandAction::Search => app.start_prompt(PromptKind::Text),
        CommandAction::SourceFilter => app.start_prompt(PromptKind::Source),
        CommandAction::LevelFilter => app.start_prompt(PromptKind::Level),
        CommandAction::ToggleDetails => app.toggle_details(),
        CommandAction::CopySelectedLine => {
            return copy_outcome(app.yank_selected_line());
        },
        CommandAction::StartVisualSelection => app.start_visual_selection(),
        CommandAction::PreviousProperty => app.previous_property(),
        CommandAction::NextProperty => app.next_property(),
        CommandAction::FollowProperty => app.follow_selected_property(),
        CommandAction::AddMessageField => app.add_selected_message_field(),
        CommandAction::MessageFields => app.open_dialog(DialogKind::MessageFields),
        CommandAction::PropertyFilters => app.open_dialog(DialogKind::PropertyFilters),
        CommandAction::IncludeProperty => app.start_prompt(PromptKind::IncludeProperty),
        CommandAction::ExcludeProperty => app.start_prompt(PromptKind::ExcludeProperty),
        CommandAction::ClearFilters => app.clear_filters(),
        CommandAction::UndoFilterChange => app.undo_filter_change(),
        CommandAction::SaveFilterPreset => app.save_filter_preset(),
        CommandAction::FilterPresets => app.open_dialog(DialogKind::FilterPresets),
        CommandAction::ExportVisibleLogs => {
            return KeyOutcome::Export;
        },
        CommandAction::ToggleMarker => app.toggle_selected_marker(),
        CommandAction::Sources => app.open_dialog(DialogKind::Sources),
        CommandAction::NextMatch => app.next_search_match(),
        CommandAction::PreviousMatch => app.previous_search_match(),
        CommandAction::ToggleFollow => app.toggle_follow(),
        CommandAction::JumpTop => app.jump_top(),
        CommandAction::JumpBottom => app.jump_bottom(),
        CommandAction::Quit => {
            return KeyOutcome::Quit;
        },
    }
    KeyOutcome::Continue
}

fn copy_outcome(yanked: Option<YankedLines>) -> (outcome: KeyOutcome)
    ensures
        outcome@ == copied(text::opt_view(yanked)),
{
    match yanked {
        Some(yanked) => KeyOutcome::Copy { text: yanked.text, line_count: yanked.line_count },
        None => KeyOutcome::Continue,
    }
}

/// Whether what is told and what is retained are as before.
spec fn kept(before: AppView, after: AppView) -> bool {
    &&& after.notice == before.notice
    &&& after.buffer == before.buffer
}

proof fn lemma_command_keeps(app: AppView, action: CommandAction)
    ensures
        kept(app, executed(app, action).0),
{
    reveal(commanded);
}

proof fn lemma_row_keeps(app: AppView, kind: DialogKind)
    ensures
        kept(app, app.row_activated(kind)),
        kept(app, app.row_deleted(kind)),
{
    reveal(AppView::row_activated);
    reveal(AppView::row_deleted);
}

proof fn lemma_dialog_keeps(
    app: AppView,
    kind: DialogKind,
    key: KeyEvent,
    half_page: int,
)
    ensures
        kept(app, dialog_key(app, kind, key, half_page)),
{
    lemma_row_keeps(app, kind);
}

proof fn lemma_prompt_keeps(app: AppView, key: KeyEvent)
    ensures
        kept(app, prompt_key(app, key)),
{
}

proof fn lemma_palette_keeps(app: AppView, key: KeyEvent, half_page: int)
    ensures
        kept(app, palette_key(app, key, half_page).0),
{
    if 0 <= app.palette.selected < commands::actions().len() {
        lemma_command_keeps(app.closed(), commands::actions()[app.palette.selected]);
    }
}

proof fn lemma_normal_keeps(app: AppView, key: KeyEvent, half_page: int)
    ensures
        kept(app, normal_key(app, key, half_page).0),
{
    match commands::key_action(key) {
        Some(action) => {
            lemma_command_keeps(app, action);
        },
        None => {},
    }
}

proof fn lemma_visual_keeps(app: AppView, key: KeyEvent, half_page: int)
    ensures
        kept(app, visual_key(app, key, half_page).0),
{
}

/// What was told before a key is no longer told after it.
pub proof fn law_key_clears_notice(app: AppView, key: KeyEvent, half_page: int)
    ensures
        pressed(app, key, half_page).0.notice is None,
{
    let quiet = AppView { notice: None, ..app };
    match app.mode {
        Mode::Prompt(_) => {
            lemma_prompt_keeps(quiet, key);
        },
        Mode::Palette => {
            lemma_palette_keeps(quiet, key, half_page);
        },
        Mode::Dialog(kind) => {
            lemma_dialog_keeps(quiet, kind, key, half_page);
        },
        Mode::Visual => {
            lemma_visual_keeps(quiet, key, half_page);
        },
        Mode::Normal => {
            lemma_normal_keeps(quiet, key, half_page);
        },
    }
}

/// A key changes nothing of what is retained: neither filters nor a pause do.
pub proof fn law_key_keeps_what_is_retained(app: AppView, key: KeyEvent, half_page: int)
    ensures
        pressed(app, key, half_page).0.buffer == app.buffer,
{
    let quiet = AppView { notice: None, ..app };
    match app.mode {
        Mode::Prompt(_) => {
            lemma_prompt_keeps(quiet, key);
        },
        Mode::Palette => {
            lemma_palette_keeps(quiet, key, half_page);
        },
        Mode::Dialog(kind) => {
            lemma_dialog_keeps(quiet, kind, key, half_page);
        },
        Mode::Visual => {
            lemma_visual_keeps(quiet, key, half_page);
        },
        Mode::Normal => {
            lemma_normal_keeps(quiet, key, half_page);
        },
    }
}

/// Something that happens to the viewer.
pub enum Happening {
    Line(Seq<char>),
    Key(KeyEvent, int),
}

/// The viewer after one thing that happened to it.
#[verifier::opaque]
pub open spec fn met(app: AppView, happening: Happening) -> AppView {
    match happening {
        Happening::Line(line) => app.received(line),
        Happening::Key(key, half_page) => pressed(app, key, half_page).0,
    }
}

/// The viewer after what happened to it.
pub open spec fn met_all(app: AppView, happenings: Seq<Happening>) -> AppView
    decreases happenings.len(),
{
    if happenings.len() == 0 {
        app
    } else {
        met(met_all(app, happenings.drop_last()), happenings.last())
    }
}

/// The lines that came.
pub open spec fn lines_in(happenings: Seq<Happening>) -> Seq<Seq<char>>
    decreases happenings.len(),
{
    if happenings.len() == 0 {
        Seq::empty()
    } else {
        let before = lines_in(happenings.drop_last());
        match happenings.last() {
            Happening::Line(line) => before.push(line),
            Happening::Key(_, _) => before,
        }
    }
}

/// What is retained depends on the lines alone: a viewer that is filtered,
/// paused or used in any other way between the lines retains what one retains
/// that is left alone, and no more events than it was made for.
pub proof fn law_retention_depends_on_the_lines(app: AppView, happenings: Seq<Happening>)
    requires
        app.buffer.valid(),
        app.buffer.next + happenings.len() < u64::MAX,
    ensures
        met_all(app, happenings).buffer == app.received_all(lines_in(happenings)).buffer,
        met_all(app, happenings).buffer.events.len() <= app.buffer.capacity,
{
    lemma_same_lines_retained(app, happenings);
    lemma_bounded(app, happenings);
}

proof fn lemma_same_lines_retained(app: AppView, happenings: Seq<Happening>)
    ensures
        same_buffer(met_all(app, happenings), app.received_all(lines_in(happenings))),
    decreases happenings.len(),
{
    if happenings.len() > 0 {
        let front = happenings.drop_last();
        lemma_same_lines_retained(app, front);
        let before = met_all(app, front);
        let alone = app.received_all(lines_in(front));
        match happenings.last() {
            Happening::Line(line) => {
                assert(lines_in(happenings).drop_last() =~= lines_in(front));
                lemma_line(before, alone, line);
            },
            Happening::Key(key, half_page) => {
                lemma_key(before, key, half_page);
            },
        }
    }
}

spec fn same_buffer(app: AppView, other: AppView) -> bool {
    app.buffer == other.buffer
}

proof fn lemma_line(app: AppView, other: AppView, line: Seq<char>)
    requires
        same_buffer(app, other),
    ensures
        same_buffer(met(app, Happening::Line(line)), other.received(line)),
{
    reveal(met);
}

proof fn lemma_key(app: AppView, key: KeyEvent, half_page: int)
    ensures
        same_buffer(app, met(app, Happening::Key(key, half_page))),
{
    reveal(met);
    law_key_keeps_what_is_retained(app, key, half_page);
}

proof fn lemma_bounded(app: AppView, happenings: Seq<Happening>)
    requires
        app.buffer.valid(),
        app.buffer.next + happenings.len() < u64::MAX,
    ensures
        bounded(app, met_all(app, happenings), happenings.len()),
    decreases happenings.len(),
{
    if happenings.len() > 0 {
        let front = happenings.drop_last();
        lemma_bounded(app, front);
        lemma_bounded_step(app, met_all(app, front), happenings.last(), front.len());
    }
}

spec fn bounded(app: AppView, after: AppView, count: nat) -> bool {
    &&& after.buffer.valid()
    &&& after.buffer.capacity == app.buffer.capacity
    &&& after.buffer.next <= app.buffer.next + count
}

proof fn lemma_bounded_step(app: AppView, before: AppView, happening: Happening, count: nat)
    requires
        bounded(app, before, count),
        app.buffer.next + count + 1 < u64::MAX,
    ensures
        bounded(app, met(before, happening), count + 1),
{
    match happening {
        Happening::Line(line) => {
            reveal(met);
            keep::law_line_keeps_buffer_valid(before.buffer, 0, None, line);
        },
        Happening::Key(key, half_page) => {
            lemma_key(before, key, half_page);
        },
    }
}

/// Closing a prompt without applying it changes neither the filter nor what is
/// shown.
pub proof fn law_cancelling_changes_no_filter(app: AppView, half_page: int)
    requires
        app.mode is Prompt,
    ensures
        ({
            let key = KeyEvent { code: KeyCode::Esc, modifiers: KeyModifiers::Plain };
            let after = pressed(app, key, half_page).0;
            after.workflow == app.workflow && after.visible == app.visible && !(
            after.mode is Prompt)
        }),
{
}

} // verus!
