//! What keys do.
use crate::app::state::{AppView, YankView};
use crate::app::{DialogKind, Mode, PromptKind};
use crate::commands::{self, CommandAction};
use crate::filter;
use crate::keys::{KeyCode, KeyEvent, KeyModifiers};
use crate::runtime::keys::{self, OutcomeView};
use vstd::prelude::*;

verus! {

/// A key without others held down.
pub open spec fn plain(code: KeyCode) -> KeyEvent {
    KeyEvent { code, modifiers: KeyModifiers::Plain }
}

/// A character with the control key held down.
pub open spec fn control(c: char) -> KeyEvent {
    KeyEvent { code: KeyCode::Char(c), modifiers: KeyModifiers::Control }
}

/// The viewer after a key.
#[verifier::opaque]
pub open spec fn after(app: AppView, key: KeyEvent, half_page: int) -> AppView {
    keys::pressed(app, key, half_page).0
}

/// The viewer with nothing told.
pub open spec fn quiet(app: AppView) -> AppView {
    AppView { notice: None, ..app }
}

proof fn lemma_command(app: AppView, c: char, action: CommandAction, half_page: int)
    requires
        app.mode == Mode::Normal,
        c != 'j' && c != 'k' && c != 'g' && c != '?',
        commands::key_action(plain(KeyCode::Char(c))) == Some(action),
        action != CommandAction::Quit,
        action != CommandAction::ExportVisibleLogs,
        action != CommandAction::CopySelectedLine,
    ensures
        after(app, plain(KeyCode::Char(c)), half_page) == keys::commanded(quiet(app), action),
{
    reveal(after);
}

proof fn lemma_step(app: AppView, key: KeyEvent, down: bool, amount: int, half_page: int)
    requires
        app.mode == Mode::Normal,
        keys::step(key, half_page) == Some((down, amount)),
    ensures
        after(app, key, half_page) == keys::stepped(quiet(app), down, amount),
{
    reveal(after);
}

proof fn lemma_stepped(app: AppView, down: bool, amount: int)
    requires
        0 <= app.visible.selected < app.count(),
        0 <= amount,
    ensures
        ({
            let view = keys::stepped(app, down, amount).visible;
            let last = app.count() - 1;
            &&& !view.follow
            &&& down ==> view.selected == if app.visible.selected + amount < last {
                app.visible.selected + amount
            } else {
                last
            }
            &&& !down ==> view.selected == if app.visible.selected > amount {
                app.visible.selected - amount
            } else {
                0
            }
        }),
{
}

/// The keys that move: `j` and down go to the next event, `k` and up to the one
/// before, and with the control key `d` and `u` go half a page.
pub proof fn law_keys_move_the_selection(app: AppView, half_page: int)
    requires
        app.mode == Mode::Normal,
        0 <= app.visible.selected < app.count(),
        0 <= half_page,
    ensures
        ({
            let selected = app.visible.selected;
            let last = app.count() - 1;
            let next = if selected < last {
                selected + 1
            } else {
                last
            };
            let previous = if selected > 0 {
                selected - 1
            } else {
                0
            };
            let page_down = if selected + half_page < last {
                selected + half_page
            } else {
                last
            };
            let page_up = if selected > half_page {
                selected - half_page
            } else {
                0
            };
            &&& after(app, plain(KeyCode::Char('j')), half_page).visible.selected == next
            &&& after(app, plain(KeyCode::Down), half_page).visible.selected == next
            &&& after(app, plain(KeyCode::Char('k')), half_page).visible.selected == previous
            &&& after(app, plain(KeyCode::Up), half_page).visible.selected == previous
            &&& after(app, control('d'), half_page).visible.selected == page_down
            &&& after(app, control('u'), half_page).visible.selected == page_up
            &&& !after(app, plain(KeyCode::Char('j')), half_page).visible.follow
            &&& !after(app, plain(KeyCode::Char('k')), half_page).visible.follow
        }),
{
    lemma_step(app, plain(KeyCode::Char('j')), true, 1, half_page);
    lemma_step(app, plain(KeyCode::Down), true, 1, half_page);
    lemma_step(app, plain(KeyCode::Char('k')), false, 1, half_page);
    lemma_step(app, plain(KeyCode::Up), false, 1, half_page);
    lemma_step(app, control('d'), true, half_page, half_page);
    lemma_step(app, control('u'), false, half_page, half_page);
    lemma_stepped(quiet(app), true, 1);
    lemma_stepped(quiet(app), false, 1);
    lemma_stepped(quiet(app), true, half_page);
    lemma_stepped(quiet(app), false, half_page);
}

/// The key `g` waits for another, and the second one goes to the first event.
pub proof fn law_second_g_goes_to_the_top(app: AppView, half_page: int)
    requires
        app.mode == Mode::Normal,
    ensures
        !app.pending_g ==> after(app, plain(KeyCode::Char('g')), half_page) == (AppView {
            notice: None,
            pending_g: true,
            ..app
        }),
        app.pending_g ==> ({
            let top = after(app, plain(KeyCode::Char('g')), half_page);
            top.visible.selected == 0 && !top.visible.follow && !top.pending_g
        }),
{
    reveal(after);
}

/// The key `G` goes to the last event and follows it.
pub proof fn law_capital_g_goes_to_the_bottom(app: AppView, half_page: int)
    requires
        app.mode == Mode::Normal,
        app.count() > 0,
    ensures
        ({
            let bottom = after(app, plain(KeyCode::Char('G')), half_page);
            &&& bottom.visible.follow && bottom.visible.backlog == 0
            &&& bottom.visible.selected == app.count() - 1
        }),
{
    lemma_command(app, 'G', CommandAction::JumpBottom, half_page);
    lemma_bottom(quiet(app));
}

proof fn lemma_bottom(app: AppView)
    requires
        app.count() > 0,
    ensures
        ({
            let bottom = keys::commanded(app, CommandAction::JumpBottom);
            &&& bottom.visible.follow && bottom.visible.backlog == 0
            &&& bottom.visible.selected == app.count() - 1
        }),
{
    reveal(keys::commanded);
}

/// The space and `p` pause the view, or follow it again from the last event.
pub proof fn law_keys_pause_and_follow(app: AppView, half_page: int)
    requires
        app.mode == Mode::Normal,
        app.count() > 0,
    ensures
        ({
            let space = after(app, plain(KeyCode::Char(' ')), half_page);
            let letter = after(app, plain(KeyCode::Char('p')), half_page);
            &&& space.visible.follow == !app.visible.follow
            &&& app.visible.follow ==> space.visible.selected == app.visible.selected
            &&& !app.visible.follow ==> space.visible.selected == app.count() - 1
                && space.visible.backlog == 0
            &&& space == letter
        }),
{
    lemma_command(app, ' ', CommandAction::ToggleFollow, half_page);
    lemma_command(app, 'p', CommandAction::ToggleFollow, half_page);
    lemma_follow(quiet(app));
}

proof fn lemma_follow(app: AppView)
    requires
        app.count() > 0,
    ensures
        ({
            let next = keys::commanded(app, CommandAction::ToggleFollow);
            &&& next.visible.follow == !app.visible.follow
            &&& app.visible.follow ==> next.visible.selected == app.visible.selected
            &&& !app.visible.follow ==> next.visible.selected == app.count() - 1
                && next.visible.backlog == 0
        }),
{
    reveal(keys::commanded);
}

proof fn lemma_prompting(app: AppView, action: CommandAction, kind: PromptKind)
    requires
        action == CommandAction::Search && kind == PromptKind::Text || action
            == CommandAction::SourceFilter && kind == PromptKind::Source || action
            == CommandAction::LevelFilter && kind == PromptKind::Level || action
            == CommandAction::IncludeProperty && kind == PromptKind::IncludeProperty || action
            == CommandAction::ExcludeProperty && kind == PromptKind::ExcludeProperty,
    ensures
        keys::commanded(app, action).mode == Mode::Prompt(kind),
        keys::commanded(app, action).workflow == app.workflow,
        kind == PromptKind::Text && app.workflow.filters.text is Some ==> keys::commanded(
            app,
            action,
        ).prompt == app.workflow.filters.text->0,
{
    reveal(keys::commanded);
}

/// The keys that ask: `/` for a text, `s` for a source, `l` for a level, `+` for a
/// property to show and `-` for one to hide.
pub proof fn law_keys_open_prompts(app: AppView, half_page: int)
    requires
        app.mode == Mode::Normal,
    ensures
        after(app, plain(KeyCode::Char('/')), half_page).mode == Mode::Prompt(PromptKind::Text),
        after(app, plain(KeyCode::Char('s')), half_page).mode == Mode::Prompt(PromptKind::Source),
        after(app, plain(KeyCode::Char('l')), half_page).mode == Mode::Prompt(PromptKind::Level),
        after(app, plain(KeyCode::Char('+')), half_page).mode == Mode::Prompt(
            PromptKind::IncludeProperty,
        ),
        after(app, plain(KeyCode::Char('-')), half_page).mode == Mode::Prompt(
            PromptKind::ExcludeProperty,
        ),
        app.workflow.filters.text is Some ==> after(
            app,
            plain(KeyCode::Char('/')),
            half_page,
        ).prompt == app.workflow.filters.text->0,
        after(app, plain(KeyCode::Char('/')), half_page).workflow == app.workflow,
{
    lemma_command(app, '/', CommandAction::Search, half_page);
    lemma_command(app, 's', CommandAction::SourceFilter, half_page);
    lemma_command(app, 'l', CommandAction::LevelFilter, half_page);
    lemma_command(app, '+', CommandAction::IncludeProperty, half_page);
    lemma_command(app, '-', CommandAction::ExcludeProperty, half_page);
    lemma_prompting(quiet(app), CommandAction::Search, PromptKind::Text);
    lemma_prompting(quiet(app), CommandAction::SourceFilter, PromptKind::Source);
    lemma_prompting(quiet(app), CommandAction::LevelFilter, PromptKind::Level);
    lemma_prompting(quiet(app), CommandAction::IncludeProperty, PromptKind::IncludeProperty);
    lemma_prompting(quiet(app), CommandAction::ExcludeProperty, PromptKind::ExcludeProperty);
}

proof fn lemma_listing(app: AppView, action: CommandAction, kind: DialogKind)
    requires
        action == CommandAction::PropertyFilters && kind == DialogKind::PropertyFilters || action
            == CommandAction::MessageFields && kind == DialogKind::MessageFields || action
            == CommandAction::FilterPresets && kind == DialogKind::FilterPresets || action
            == CommandAction::Sources && kind == DialogKind::Sources,
    ensures
        keys::commanded(app, action).mode == Mode::Dialog(kind),
{
    reveal(keys::commanded);
}

/// The keys that open lists: `P` the conditions, `M` the pinned fields, `V` the
/// presets, `O` the sources, and `?` the commands.
pub proof fn law_keys_open_lists(app: AppView, half_page: int)
    requires
        app.mode == Mode::Normal,
    ensures
        after(app, plain(KeyCode::Char('P')), half_page).mode == Mode::Dialog(
            DialogKind::PropertyFilters,
        ),
        after(app, plain(KeyCode::Char('M')), half_page).mode == Mode::Dialog(
            DialogKind::MessageFields,
        ),
        after(app, plain(KeyCode::Char('V')), half_page).mode == Mode::Dialog(
            DialogKind::FilterPresets,
        ),
        after(app, plain(KeyCode::Char('O')), half_page).mode == Mode::Dialog(DialogKind::Sources),
        after(app, plain(KeyCode::Char('?')), half_page).mode == Mode::Palette,
{
    lemma_command(app, 'P', CommandAction::PropertyFilters, half_page);
    lemma_command(app, 'M', CommandAction::MessageFields, half_page);
    lemma_command(app, 'V', CommandAction::FilterPresets, half_page);
    lemma_command(app, 'O', CommandAction::Sources, half_page);
    lemma_listing(quiet(app), CommandAction::PropertyFilters, DialogKind::PropertyFilters);
    lemma_listing(quiet(app), CommandAction::MessageFields, DialogKind::MessageFields);
    lemma_listing(quiet(app), CommandAction::FilterPresets, DialogKind::FilterPresets);
    lemma_listing(quiet(app), CommandAction::Sources, DialogKind::Sources);
    lemma_commands_key(app, half_page);
}

proof fn lemma_commands_key(app: AppView, half_page: int)
    requires
        app.mode == Mode::Normal,
    ensures
        after(app, plain(KeyCode::Char('?')), half_page).mode == Mode::Palette,
{
    reveal(after);
}

proof fn lemma_cleared(app: AppView)
    ensures
        keys::commanded(app, CommandAction::ClearFilters).workflow.filters == filter::no_filter(),
{
    reveal(keys::commanded);
}

proof fn lemma_undone(app: AppView)
    ensures
        app.workflow.history.len() > 0 ==> keys::commanded(
            app,
            CommandAction::UndoFilterChange,
        ).workflow.filters == app.workflow.history.last(),
{
    reveal(keys::commanded);
}

proof fn lemma_followed(app: AppView)
    ensures
        app.property() is Some ==> keys::commanded(
            app,
            CommandAction::FollowProperty,
        ).workflow.filters == app.workflow.filters.added(
            filter::UpdateView {
                exclude: false,
                predicate: filter::PredicateView {
                    key: app.property()->0.key,
                    value: Some(app.property()->0.value.display()),
                },
            },
        ),
{
    reveal(keys::commanded);
}

proof fn lemma_saved(app: AppView)
    ensures
        keys::commanded(app, CommandAction::SaveFilterPreset).workflow == app.workflow.saved(),
{
    reveal(keys::commanded);
}

/// The keys that change the filter: `c` drops every condition, `u` brings back the
/// filter before, `f` shows what shows the selected property's value, and `S` saves
/// the filter.
pub proof fn law_keys_change_the_filter(app: AppView, half_page: int)
    requires
        app.mode == Mode::Normal,
    ensures
        after(app, plain(KeyCode::Char('c')), half_page).workflow.filters == filter::no_filter(),
        app.workflow.history.len() > 0 ==> after(
            app,
            plain(KeyCode::Char('u')),
            half_page,
        ).workflow.filters == app.workflow.history.last(),
        app.property() is Some ==> after(
            app,
            plain(KeyCode::Char('f')),
            half_page,
        ).workflow.filters == app.workflow.filters.added(
            filter::UpdateView {
                exclude: false,
                predicate: filter::PredicateView {
                    key: app.property()->0.key,
                    value: Some(app.property()->0.value.display()),
                },
            },
        ),
        after(app, plain(KeyCode::Char('S')), half_page).workflow == app.workflow.saved(),
{
    lemma_command(app, 'c', CommandAction::ClearFilters, half_page);
    lemma_command(app, 'u', CommandAction::UndoFilterChange, half_page);
    lemma_command(app, 'f', CommandAction::FollowProperty, half_page);
    lemma_command(app, 'S', CommandAction::SaveFilterPreset, half_page);
    lemma_cleared(quiet(app));
    lemma_undone(quiet(app));
    lemma_followed(quiet(app));
    lemma_saved(quiet(app));
    assert(quiet(app).property() == app.property());
}

/// Enter opens and closes the details of the selected event.
pub proof fn law_enter_opens_details(app: AppView, half_page: int)
    requires
        app.mode == Mode::Normal,
        app.event() is Some,
    ensures
        after(app, plain(KeyCode::Enter), half_page).details_open == !app.details_open,
{
    reveal(after);
    reveal(keys::commanded);
    assert(quiet(app).event() == app.event());
}

proof fn lemma_properties(app: AppView)
    requires
        app.event() is Some,
        0 <= app.selected_property < app.properties().len(),
    ensures
        keys::commanded(app, CommandAction::NextProperty).selected_property == if
            app.selected_property + 1 < app.properties().len() {
            app.selected_property + 1
        } else {
            app.selected_property
        },
        keys::commanded(app, CommandAction::PreviousProperty).selected_property == if
            app.selected_property > 0 {
            app.selected_property - 1
        } else {
            0
        },
{
    reveal(keys::commanded);
}

proof fn lemma_pinned(app: AppView)
    requires
        app.property() is Some,
    ensures
        keys::commanded(app, CommandAction::AddMessageField).field_rows.contains(
            app.property()->0.key,
        ),
{
    reveal(keys::commanded);
    let key = app.property()->0.key;
    if !app.field_rows.contains(key) {
        assert(app.field_rows.push(key)[app.field_rows.len() as int] == key);
    }
}

proof fn lemma_visual(app: AppView)
    requires
        0 <= app.visible.selected < app.count(),
    ensures
        keys::commanded(app, CommandAction::StartVisualSelection).mode == Mode::Visual,
        keys::commanded(app, CommandAction::StartVisualSelection).anchor == Some(
            app.visible.selected,
        ),
{
    reveal(keys::commanded);
}

proof fn lemma_marked(app: AppView)
    ensures
        keys::commanded(app, CommandAction::ToggleMarker).marked == app.marker_toggled().marked,
{
    reveal(keys::commanded);
}

/// The keys for the selected event: `]` and `[` go through its properties, `m` pins
/// the selected one, `T` marks the event, and `v` begins a selection of several.
pub proof fn law_keys_are_for_the_selected_event(app: AppView, half_page: int)
    requires
        app.mode == Mode::Normal,
        app.event() is Some,
        0 <= app.visible.selected < app.count(),
        0 <= app.selected_property < app.properties().len(),
    ensures
        ({
            let count = app.properties().len();
            let property = app.selected_property;
            &&& after(app, plain(KeyCode::Char(']')), half_page).selected_property == if property
                + 1 < count {
                property + 1
            } else {
                property
            }
            &&& after(app, plain(KeyCode::Char('[')), half_page).selected_property == if property
                > 0 {
                property - 1
            } else {
                0
            }
            &&& after(app, plain(KeyCode::Char('m')), half_page).field_rows.contains(
                app.properties()[property].key,
            )
            &&& after(app, plain(KeyCode::Char('v')), half_page).mode == Mode::Visual
            &&& after(app, plain(KeyCode::Char('v')), half_page).anchor == Some(
                app.visible.selected,
            )
            &&& after(app, plain(KeyCode::Char('T')), half_page).marked
                == app.marker_toggled().marked
        }),
{
    lemma_command(app, ']', CommandAction::NextProperty, half_page);
    lemma_command(app, '[', CommandAction::PreviousProperty, half_page);
    lemma_command(app, 'm', CommandAction::AddMessageField, half_page);
    lemma_command(app, 'v', CommandAction::StartVisualSelection, half_page);
    lemma_command(app, 'T', CommandAction::ToggleMarker, half_page);
    assert(quiet(app).event() == app.event());
    assert(quiet(app).properties() == app.properties());
    lemma_properties(quiet(app));
    lemma_pinned(quiet(app));
    lemma_visual(quiet(app));
    lemma_marked(quiet(app));
}

/// `y` copies the line of the selected event, `q` ends the viewer, and `e` writes
/// what is shown to a file.
pub proof fn law_keys_copy_export_and_end(app: AppView, half_page: int)
    requires
        app.mode == Mode::Normal,
    ensures
        keys::pressed(app, plain(KeyCode::Char('q')), half_page).1 == OutcomeView::Quit,
        keys::pressed(app, plain(KeyCode::Char('e')), half_page).1 == OutcomeView::Export,
        app.event() is Some ==> keys::pressed(app, plain(KeyCode::Char('y')), half_page).1
            == OutcomeView::Copy(YankView { text: app.event()->0.raw, count: 1 }),
{
    assert(quiet(app).event() == app.event());
}

proof fn lemma_searched(app: AppView)
    requires
        0 <= app.visible.selected < app.count(),
    ensures
        ({
            let next = keys::commanded(app, CommandAction::NextMatch).visible.selected;
            let previous = keys::commanded(app, CommandAction::PreviousMatch).visible.selected;
            let searching = app.workflow.filters.text is Some && app.workflow.filters.text->0.len()
                > 0;
            &&& searching ==> next == if app.visible.selected == app.count() - 1 {
                0
            } else {
                app.visible.selected + 1
            }
            &&& searching ==> previous == if app.visible.selected == 0 {
                app.count() - 1
            } else {
                app.visible.selected - 1
            }
            &&& !searching ==> next == app.visible.selected && previous == app.visible.selected
        }),
{
    reveal(keys::commanded);
}

/// `n` and `N` go to the next and the previous match of a search, and nowhere where
/// nothing is searched.
pub proof fn law_keys_search(app: AppView, half_page: int)
    requires
        app.mode == Mode::Normal,
        0 <= app.visible.selected < app.count(),
    ensures
        ({
            let next = after(app, plain(KeyCode::Char('n')), half_page).visible.selected;
            let previous = after(app, plain(KeyCode::Char('N')), half_page).visible.selected;
            let searching = app.workflow.filters.text is Some && app.workflow.filters.text->0.len()
                > 0;
            &&& searching ==> next == if app.visible.selected == app.count() - 1 {
                0
            } else {
                app.visible.selected + 1
            }
            &&& searching ==> previous == if app.visible.selected == 0 {
                app.count() - 1
            } else {
                app.visible.selected - 1
            }
            &&& !searching ==> next == app.visible.selected && previous == app.visible.selected
        }),
{
    lemma_command(app, 'n', CommandAction::NextMatch, half_page);
    lemma_command(app, 'N', CommandAction::PreviousMatch, half_page);
    lemma_searched(quiet(app));
}

/// A prompt takes what is typed, gives back what is erased, and closes with escape
/// without a change of the filter.
pub proof fn law_prompt_takes_what_is_typed(
    app: AppView,
    kind: PromptKind,
    c: char,
    half_page: int,
)
    requires
        app.mode == Mode::Prompt(kind),
    ensures
        after(app, plain(KeyCode::Char(c)), half_page).prompt == app.prompt.push(c),
        after(
            app,
            KeyEvent { code: KeyCode::Char(c), modifiers: KeyModifiers::Shift },
            half_page,
        ).prompt == app.prompt.push(c),
        after(app, control(c), half_page).prompt == app.prompt,
        app.prompt.len() > 0 ==> after(app, plain(KeyCode::Backspace), half_page).prompt
            == app.prompt.drop_last(),
        after(app, plain(KeyCode::Esc), half_page).workflow == app.workflow,
        after(app, plain(KeyCode::Esc), half_page).prompt.len() == 0,
        app.editing is None ==> after(app, plain(KeyCode::Esc), half_page).mode == Mode::Normal,
        app.editing is Some ==> after(app, plain(KeyCode::Esc), half_page).mode == Mode::Dialog(
            DialogKind::PropertyFilters,
        ),
        after(app, plain(KeyCode::Enter), half_page).workflow == (AppView {
            notice: None,
            ..app
        }).prompt_applied().workflow,
        after(app, plain(KeyCode::Enter), half_page).prompt.len() == 0,
{
    reveal(after);
}

/// A list is closed with escape, and nothing of the filter changes.
pub proof fn law_escape_closes_lists(app: AppView, kind: DialogKind, half_page: int)
    requires
        app.mode == Mode::Dialog(kind),
    ensures
        after(app, plain(KeyCode::Esc), half_page).mode == Mode::Normal,
        after(app, plain(KeyCode::Esc), half_page).workflow == app.workflow,
{
    reveal(after);
}

/// A list is searched with what is typed, and with less of it once it is erased.
pub proof fn law_lists_are_searched(app: AppView, kind: DialogKind, c: char, half_page: int)
    requires
        app.mode == Mode::Dialog(kind),
        c != 'j' && c != 'k',
    ensures
        after(app, plain(KeyCode::Char(c)), half_page).list(kind).query == app.list(
            kind,
        ).query.push(c),
        app.list(kind).query.len() > 0 ==> after(
            app,
            plain(KeyCode::Backspace),
            half_page,
        ).list(kind).query == app.list(kind).query.drop_last(),
{
    reveal(after);
}

/// A list is moved through with the same keys as the events.
pub proof fn law_lists_are_moved_through(app: AppView, kind: DialogKind, half_page: int)
    requires
        app.mode == Mode::Dialog(kind),
    ensures
        0 <= app.list(kind).selected < app.dialog_len(kind) - 1 ==> after(
            app,
            plain(KeyCode::Char('j')),
            half_page,
        ).list(kind).selected == app.list(kind).selected + 1,
        app.list(kind).selected > 0 ==> after(app, plain(KeyCode::Char('k')), half_page).list(
            kind,
        ).selected == app.list(kind).selected - 1,
{
    reveal(after);
}

proof fn lemma_list_key(app: AppView, kind: DialogKind, half_page: int)
    requires
        app.mode == Mode::Dialog(kind),
    ensures
        app.list(kind).query.len() == 0 ==> after(app, plain(KeyCode::Backspace), half_page)
            == quiet(app).row_deleted(kind),
        after(app, plain(KeyCode::Enter), half_page) == quiet(app).row_activated(kind),
        kind == DialogKind::PropertyFilters || kind == DialogKind::MessageFields ==> after(
            app,
            plain(KeyCode::Delete),
            half_page,
        ) == quiet(app).row_deleted(kind),
{
    reveal(after);
}

/// In the list of the conditions erasing deletes the selected one, and enter edits
/// it.
pub proof fn law_keys_act_on_conditions(app: AppView, half_page: int)
    requires
        app.mode == Mode::Dialog(DialogKind::PropertyFilters),
    ensures
        app.property_filters.query.len() == 0 ==> after(app, plain(KeyCode::Backspace), half_page)
            == quiet(app).property_filter_deleted(),
        after(app, plain(KeyCode::Delete), half_page) == quiet(app).property_filter_deleted(),
        after(app, plain(KeyCode::Enter), half_page) == quiet(app).editing_selected(),
{
    lemma_list_key(app, DialogKind::PropertyFilters, half_page);
    reveal(AppView::row_activated);
    reveal(AppView::row_deleted);
}

/// In the list of the pinned fields erasing takes the selected one off, and enter
/// hides it or shows it again.
pub proof fn law_keys_act_on_fields(app: AppView, half_page: int)
    requires
        app.mode == Mode::Dialog(DialogKind::MessageFields),
    ensures
        app.message_fields.query.len() == 0 ==> after(app, plain(KeyCode::Backspace), half_page)
            == quiet(app).field_deleted(),
        after(app, plain(KeyCode::Delete), half_page) == quiet(app).field_deleted(),
        after(app, plain(KeyCode::Enter), half_page) == quiet(app).field_toggled(),
{
    lemma_list_key(app, DialogKind::MessageFields, half_page);
    reveal(AppView::row_activated);
    reveal(AppView::row_deleted);
}

/// In the list of the presets erasing deletes the selected one, and enter makes it
/// the filter.
pub proof fn law_keys_act_on_presets(app: AppView, half_page: int)
    requires
        app.mode == Mode::Dialog(DialogKind::FilterPresets),
    ensures
        app.preset_list.query.len() == 0 ==> after(app, plain(KeyCode::Backspace), half_page)
            == quiet(app).preset_deleted(),
        after(app, plain(KeyCode::Enter), half_page) == quiet(app).preset_applied(),
{
    lemma_list_key(app, DialogKind::FilterPresets, half_page);
    reveal(AppView::row_activated);
    reveal(AppView::row_deleted);
}

/// In the list of the facets enter chooses the selected value.
pub proof fn law_keys_act_on_facets(app: AppView, half_page: int)
    requires
        app.mode == Mode::Dialog(DialogKind::Facets),
    ensures
        after(app, plain(KeyCode::Enter), half_page) == quiet(app).facet_activated(),
{
    lemma_list_key(app, DialogKind::Facets, half_page);
    reveal(AppView::row_activated);
}

/// In visual mode `y` copies the selected events and ends it; escape and `v` end it.
pub proof fn law_visual_keys_copy_the_selection(app: AppView, half_page: int)
    requires
        app.mode == Mode::Visual,
    ensures
        after(app, plain(KeyCode::Char('y')), half_page).mode == Mode::Normal,
        after(app, plain(KeyCode::Esc), half_page).mode == Mode::Normal,
        after(app, plain(KeyCode::Char('v')), half_page).mode == Mode::Normal,
        after(app, plain(KeyCode::Esc), half_page).anchor is None,
{
    reveal(after);
}

/// What `y` copies in visual mode is the selected events.
pub proof fn law_visual_copy_is_the_selection(app: AppView, half_page: int)
    requires
        app.mode == Mode::Visual,
        app.visual_yank() is Some,
    ensures
        keys::pressed(app, plain(KeyCode::Char('y')), half_page).1 == OutcomeView::Copy(
            app.visual_yank()->0,
        ),
{
    assert(quiet(app).visual_yank() == app.visual_yank());
}

/// In visual mode the keys that move go on moving, from where the selection began.
pub proof fn law_visual_keys_move(app: AppView, half_page: int)
    requires
        app.mode == Mode::Visual,
        0 <= app.visible.selected < app.count() - 1,
    ensures
        ({
            let next = after(app, plain(KeyCode::Char('j')), half_page);
            let last = after(app, plain(KeyCode::Char('G')), half_page);
            &&& next.mode == Mode::Visual && next.anchor == app.anchor
            &&& next.visible.selected == app.visible.selected + 1
            &&& last.mode == Mode::Visual && last.anchor == app.anchor
            &&& last.visible.selected == app.count() - 1
        }),
{
    reveal(after);
}

/// The list of commands runs the selected one, and closes.
pub proof fn law_palette_runs_the_selected_command(app: AppView, half_page: int)
    requires
        app.mode == Mode::Palette,
        0 <= app.palette.selected < 26,
    ensures
        after(app, plain(KeyCode::Esc), half_page).mode == Mode::Normal,
        after(app, plain(KeyCode::Char('?')), half_page).mode == Mode::Normal,
        after(app, plain(KeyCode::Char('j')), half_page).palette.selected == app.palette.selected
            + 1,
        app.palette.selected > 0 ==> after(
            app,
            plain(KeyCode::Char('k')),
            half_page,
        ).palette.selected == app.palette.selected - 1,
        keys::pressed(app, plain(KeyCode::Enter), half_page) == keys::executed(
            (AppView { notice: None, ..app }).closed(),
            commands::commands()[app.palette.selected].action,
        ),
{
    reveal(after);
}

/// The key that a command is listed with runs the command.
pub proof fn law_listed_key_runs_its_command(action: CommandAction)
    ensures
        commands::shortcut_of(action).len() == 1 ==> commands::key_action(
            plain(KeyCode::Char(commands::shortcut_of(action)[0])),
        ) == Some(action),
        commands::shortcut_of(CommandAction::ToggleDetails) == "Enter"@,
        commands::key_action(plain(KeyCode::Enter)) == Some(CommandAction::ToggleDetails),
{
    reveal_strlit("/");
    reveal_strlit("s");
    reveal_strlit("l");
    reveal_strlit("Enter");
    reveal_strlit("y");
    reveal_strlit("v");
    reveal_strlit("[");
    reveal_strlit("]");
    reveal_strlit("f");
    reveal_strlit("m");
    reveal_strlit("M");
    reveal_strlit("P");
    reveal_strlit("+");
    reveal_strlit("-");
    reveal_strlit("c");
    reveal_strlit("u");
    reveal_strlit("S");
    reveal_strlit("V");
    reveal_strlit("e");
    reveal_strlit("T");
    reveal_strlit("O");
    reveal_strlit("n");
    reveal_strlit("N");
    reveal_strlit("Space/p");
    reveal_strlit("gg");
    reveal_strlit("G");
    reveal_strlit("q");
}

} // verus!
