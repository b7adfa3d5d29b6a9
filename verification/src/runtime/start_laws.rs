//! How commands are asked for, started, read and ended.
use crate::cli::{self, RequestView};
use crate::config::{self, ConfigErrorView, RawCommandView, RawView};
use crate::model::laws::is_digits;
use crate::page_log::registry::PageView;
use crate::path;
use crate::recording::{self, MAX_QUEUED_BYTES, MAX_QUEUED_LINES};
use crate::runtime::input::{self, ReaderView};
use crate::runtime::schedule::{
    self, ProbeView, ReadinessView, ScheduleView, StartState, WaitView,
};
use crate::runtime::shutdown::{self, ChildShutdown, ShutdownSignal, ShutdownStatus};
use crate::runtime::start_plan::{self, PlanErrorView};
use crate::runtime::{InputView, NamedView, ReadyView, StartView};
use crate::text;
use crate::text::laws as texts;
use crate::text::laws::{digits_value, is_blank, is_tight};
use crate::text::{number, split};
use vstd::prelude::*;

verus! {

// ---------------------------------------------------------------------------
// Command lines
// ---------------------------------------------------------------------------

/// Without arguments lines are read from the standard input; `start` starts what a
/// configuration says, that of the project or one by its name; `dc` is short for
/// `docker compose up`; anything else is a command.
pub proof fn law_arguments_ask_for_input(args: Seq<Seq<char>>, name: Seq<char>)
    ensures
        cli::request_of(Seq::empty()) == Ok::<RequestView, Seq<char>>(
            RequestView::Input(InputView::Stdin),
        ),
        cli::request_of(seq!["start"@]) == Ok::<RequestView, Seq<char>>(
            RequestView::ProjectConfig,
        ),
        cli::request_of(seq!["start"@, name]) == Ok::<RequestView, Seq<char>>(
            RequestView::NamedConfig(name),
        ),
        cli::request_of(seq!["start"@, name, name]) is Err,
        cli::request_of(seq!["run"@]) is Err,
        cli::request_of(seq!["dc"@]) == Ok::<RequestView, Seq<char>>(
            RequestView::Input(InputView::Command(seq!["docker"@, "compose"@, "up"@])),
        ),
        args.len() > 0 && args[0] != "run"@ && args[0] != "start"@ && args[0] != "dc"@
            ==> cli::request_of(args) == Ok::<RequestView, Seq<char>>(
            RequestView::Input(InputView::Command(args)),
        ),
        args.len() > 1 && args[0] == "dc"@ ==> cli::request_of(args) == Ok::<
            RequestView,
            Seq<char>,
        >(RequestView::Input(InputView::Command(args))),
{
    reveal_strlit("run");
    reveal_strlit("start");
    reveal_strlit("dc");
    assert("run"@.len() == 3 && "start"@.len() == 5 && "dc"@.len() == 2);
    assert(seq!["dc"@][0] == "dc"@);
    assert(seq!["start"@][0] == "start"@);
    assert(seq!["start"@, name][0] == "start"@);
    assert(seq!["start"@, name, name][0] == "start"@);
    assert(seq!["run"@][0] == "run"@);
}

/// Each `--name` begins another command: its name, and after `--` what it runs, up
/// to the next `--name`.
pub proof fn law_names_begin_commands(
    name: Seq<char>,
    command: Seq<Seq<char>>,
    rest: Seq<Seq<char>>,
)
    requires
        is_tight(name),
        name != "--"@,
        command.len() > 0,
        forall|i: int| 0 <= i < command.len() ==> #[trigger] command[i] != "--name"@,
        rest.len() == 0 || rest[0] == "--name"@,
        cli::runner_commands(rest) is Ok,
    ensures
        cli::runner_commands(seq!["--name"@, name, "--"@] + command + rest) == Ok::<
            Seq<NamedView>,
            Seq<char>,
        >(seq![NamedView { name, command, cwd: None }] + cli::runner_commands(rest)->Ok_0),
        cli::runner_commands(Seq::empty()) == Ok::<Seq<NamedView>, Seq<char>>(Seq::empty()),
        cli::runner_commands(seq!["--name"@, name, "--"@]) is Err,
        cli::runner_commands(seq!["--name"@, name]) is Err,
        cli::runner_commands(seq!["--name"@]) is Err,
        cli::runner_commands(command) is Err,
{
    let none = Seq::<char>::empty();
    texts::law_trimming_keeps_the_text(none, name, none);
    let args = seq!["--name"@, name, "--"@] + command + rest;
    assert(args[0] == "--name"@ && args[1] == name && args[2] == "--"@);
    assert(args.skip(3) =~= command + rest);
    lemma_next_name(command, rest);
    assert((command + rest).take(command.len() as int) =~= command);
    assert((command + rest).skip(command.len() as int) =~= rest);
    let bare = seq!["--name"@, name, "--"@];
    assert(bare[0] == "--name"@ && bare[1] == name && bare[2] == "--"@);
    assert(bare.skip(3) =~= Seq::<Seq<char>>::empty());
    assert(seq!["--name"@, name][0] == "--name"@ && seq!["--name"@, name][1] == name);
    assert(seq!["--name"@][0] == "--name"@);
    assert(command[0] != "--name"@);
}

proof fn lemma_next_name(command: Seq<Seq<char>>, rest: Seq<Seq<char>>)
    requires
        forall|i: int| 0 <= i < command.len() ==> #[trigger] command[i] != "--name"@,
        rest.len() == 0 || rest[0] == "--name"@,
    ensures
        cli::next_name(command + rest) == command.len(),
    decreases command.len(),
{
    if command.len() > 0 {
        let tail = command.drop_first();
        assert forall|i: int| 0 <= i < tail.len() implies #[trigger] tail[i] != "--name"@ by {
            assert(tail[i] == command[i + 1]);
        }
        lemma_next_name(tail, rest);
        assert((command + rest).drop_first() =~= tail + rest);
        assert((command + rest)[0] == command[0]);
    } else {
        assert(command + rest =~= rest);
    }
}

/// A number that is typed has the value of its digits; what is too large or has
/// anything but digits in it is refused.
pub proof fn law_typed_numbers_have_their_value(s: Seq<char>)
    ensures
        is_digits(s) && digits_value(s) <= usize::MAX ==> cli::read_number(s) == Ok::<
            int,
            Seq<char>,
        >(digits_value(s)) && cli::read_number(seq!['+'] + s) == Ok::<int, Seq<char>>(
            digits_value(s),
        ),
        is_digits(s) && digits_value(s) > usize::MAX ==> cli::read_number(s) is Err,
        s.len() == 0 ==> cli::read_number(s) is Err,
{
    if is_digits(s) {
        lemma_number(s);
        assert('0' <= s[0] <= '9');
        let signed = seq!['+'] + s;
        assert(signed[0] == '+');
        assert(signed.drop_first() =~= s);
    }
}

proof fn lemma_number(s: Seq<char>)
    requires
        forall|i: int| 0 <= i < s.len() ==> '0' <= #[trigger] s[i] <= '9',
    ensures
        digits_value(s) >= 0,
        digits_value(s) <= usize::MAX ==> cli::number_of(s) == Ok::<int, Seq<char>>(
            digits_value(s),
        ),
        digits_value(s) > usize::MAX ==> cli::number_of(s) is Err,
    decreases s.len(),
{
    if s.len() > 0 {
        assert('0' <= s[s.len() - 1] <= '9');
        lemma_number(s.drop_last());
    }
}

/// What is no digit makes no number, wherever it stands.
pub proof fn law_other_characters_make_no_number(s: Seq<char>, i: int)
    requires
        0 <= i < s.len(),
        !('0' <= s[i] <= '9'),
        i > 0 || s[0] != '+' || s.len() == 1,
    ensures
        cli::read_number(s) is Err,
{
    if s.len() > 1 && s[0] == '+' {
        assert(s.drop_first()[i - 1] == s[i]);
        lemma_no_number(s.drop_first(), i - 1);
    } else {
        lemma_no_number(s, i);
    }
}

proof fn lemma_no_number(s: Seq<char>, i: int)
    requires
        0 <= i < s.len(),
        !('0' <= s[i] <= '9'),
    ensures
        cli::number_of(s) is Err,
    decreases s.len(),
{
    if i < s.len() - 1 {
        lemma_no_number(s.drop_last(), i);
    }
}

/// An age is told in its largest unit.
pub proof fn law_ages_are_told_in_their_largest_unit(count: nat)
    ensures
        count < 60 ==> cli::age_text(count) == number::decimal(count) + "s"@,
        0 < count < 60 ==> cli::age_text(count * 60) == number::decimal(count) + "m"@,
        0 < count < 24 ==> cli::age_text(count * 3600) == number::decimal(count) + "h"@,
        0 < count ==> cli::age_text(count * 86400) == number::decimal(count) + "d"@,
{
    assert(count * 60 / 60 == count && count * 3600 / 3600 == count && count * 86400 / 86400
        == count);
}

/// A page is listed with its id, its process, its age and its command.
pub proof fn law_pages_are_listed_with_their_age(page: PageView, now: u64)
    ensures
        now >= page.started ==> cli::page_line(page, now) == page.id + "\t"@ + number::decimal(
            page.pid as nat,
        ) + "\t"@ + cli::age_text((now - page.started) as nat) + "\t"@ + page.command,
        now < page.started ==> cli::page_line(page, now) == page.id + "\t"@ + number::decimal(
            page.pid as nat,
        ) + "\t"@ + cli::age_text(0) + "\t"@ + page.command,
        cli::pages_text(Seq::empty(), now) == seq!["no active loggle pages"@],
        cli::pages_text(seq![page], now).len() == 2,
        cli::pages_text(seq![page], now)[1] == cli::page_line(page, now),
{
    assert(seq![page][0] == page);
}

// ---------------------------------------------------------------------------
// Configurations
// ---------------------------------------------------------------------------

/// A path below another one has a separator between them, and one that begins at
/// the root stands for itself.
pub proof fn law_paths_are_joined(base: Seq<char>, part: Seq<char>)
    requires
        base.len() > 0,
        part.len() > 0,
    ensures
        part[0] == '/' ==> path::joined(base, part) == part,
        part[0] != '/' && base.last() != '/' ==> path::joined(base, part) == base + seq!['/']
            + part,
        part[0] != '/' && base.last() == '/' ==> path::joined(base, part) == base + part,
{
    reveal_strlit("/");
    assert("/"@ =~= seq!['/']);
}

/// A named configuration is a file of that name in the directory of the
/// configurations; a name that leads elsewhere is refused.
pub proof fn law_named_configurations_have_their_file(
    name: Seq<char>,
    base: Seq<char>,
    home: Seq<char>,
)
    requires
        is_tight(name),
        !name.contains('/'),
        name != "."@,
        name != ".."@,
        base.len() > 0 && base.last() != '/',
        home.len() > 0 && home.last() != '/',
    ensures
        config::named_path(name, Some(base), Some(home)) == Ok::<Seq<char>, ConfigErrorView>(
            base + "/loggle/"@ + name + ".toml"@,
        ),
        config::named_path(name, None, Some(home)) == Ok::<Seq<char>, ConfigErrorView>(
            home + "/.config/loggle/"@ + name + ".toml"@,
        ),
        config::named_path(name, None, None) == Err::<Seq<char>, ConfigErrorView>(
            ConfigErrorView::MissingConfigDirectory,
        ),
        config::named_path(seq!['/'] + name, Some(base), Some(home)) is Err,
        config::named_path("."@, Some(base), Some(home)) is Err,
        config::named_path(".."@, Some(base), Some(home)) is Err,
        config::named_path(name + seq!['/'] + name, Some(base), Some(home)) is Err,
{
    reveal_strlit("loggle");
    reveal_strlit(".config");
    reveal_strlit("/");
    reveal_strlit("/loggle/");
    reveal_strlit("/.config/loggle/");
    reveal_strlit(".toml");
    reveal_strlit(".");
    reveal_strlit("..");
    let none = Seq::<char>::empty();
    let file = name + ".toml"@;
    texts::law_trimming_keeps_the_text(none, name, none);
    text::lemma_index_of(name, '/');
    let i = text::index_of(name, '/');
    if i < name.len() {
        assert(name.contains('/'));
    }
    assert(name.take(i) =~= name);
    assert(name.skip(name.len() as int) =~= none);
    assert(path::is_simple_name(name));
    assert(file[0] == name[0]);
    assert(name[0] != '/') by {
        if name[0] == '/' {
            assert(name.contains('/'));
        }
    }
    let first = base + "/"@ + "loggle"@;
    assert(first.last() == 'e');
    assert(first + "/"@ + file =~= base + "/loggle/"@ + name + ".toml"@);
    let hidden = home + "/"@ + ".config"@;
    assert(hidden.last() == 'g');
    let second = hidden + "/"@ + "loggle"@;
    assert(second.last() == 'e');
    assert(second + "/"@ + file =~= home + "/.config/loggle/"@ + name + ".toml"@);

    let rooted = seq!['/'] + name;
    assert(rooted[0] == '/' && rooted.last() == name.last());
    texts::law_trimming_keeps_the_text(none, rooted, none);
    assert(text::index_of(rooted, '/') == 0);
    assert(rooted.take(0) =~= none);
    texts::law_trimming_keeps_the_text(none, "."@, none);
    texts::law_trimming_keeps_the_text(none, ".."@, none);
    text::lemma_index_of("."@, '/');
    text::lemma_index_of(".."@, '/');
    assert("."@.take(1) =~= "."@);
    assert(".."@.take(2) =~= ".."@);
    let nested = name + seq!['/'] + name;
    assert(nested[0] == name[0] && nested.last() == name.last());
    texts::law_trimming_keeps_the_text(none, nested, none);
    texts::law_split_at_the_first_mark(name, name, '/');
    assert(nested.take(text::index_of(nested, '/')) == name);
    text::lemma_index_of(nested, '/');
    assert(text::index_of(nested, '/') == name.len());
    let rest = nested.skip(name.len() as int);
    assert(rest =~= seq!['/'] + name);
    assert(rest.drop_first() =~= name);
    lemma_goes_somewhere(name);
}

proof fn lemma_goes_somewhere(name: Seq<char>)
    requires
        name.len() > 0,
        !name.contains('/'),
        name != "."@,
    ensures
        !path::goes_nowhere(name),
{
    reveal_strlit(".");
    if name[0] == '/' {
        assert(name.contains('/'));
    }
    if name[0] == '.' && name.len() == 1 {
        assert(name =~= "."@);
    }
    if name.len() > 1 && name[1] == '/' {
        assert(name.contains('/'));
    }
}

/// A configuration needs a root and commands, each with a name and something to
/// run; blank source fields are refused.
pub proof fn law_configurations_are_checked(
    root: Seq<char>,
    fields: Seq<Seq<char>>,
    commands: Seq<RawCommandView>,
    i: int,
)
    requires
        root.len() > 0,
        0 <= i < commands.len(),
    ensures
        config::config_error(
            RawView { root: None, source_fields: fields, commands: Some(commands) },
        ) is Some,
        config::config_error(
            RawView {
                root: Some(Seq::empty()),
                source_fields: fields,
                commands: Some(commands),
            },
        ) is Some,
        config::config_error(
            RawView { root: Some(root), source_fields: fields, commands: None },
        ) is Some,
        config::config_error(
            RawView {
                root: Some(root),
                source_fields: fields,
                commands: Some(Seq::empty()),
            },
        ) is Some,
        (exists|k: int| 0 <= k < fields.len() && text::trim(#[trigger] fields[k]).len() == 0)
            ==> config::config_error(
            RawView { root: Some(root), source_fields: fields, commands: Some(commands) },
        ) is Some,
        text::trim(commands[i].name).len() == 0 || commands[i].command.len() == 0 || text::trim(
            commands[i].command[0],
        ).len() == 0 ==> config::config_error(
            RawView { root: Some(root), source_fields: fields, commands: Some(commands) },
        ) is Some,
{
    if text::trim(commands[i].name).len() == 0 || commands[i].command.len() == 0 || text::trim(
        commands[i].command[0],
    ).len() == 0 {
        lemma_bad_command(commands, i);
    }
    if exists|k: int| 0 <= k < fields.len() && text::trim(#[trigger] fields[k]).len() == 0 {
        let k = choose|k: int|
            0 <= k < fields.len() && text::trim(#[trigger] fields[k]).len() == 0;
        assert(config::is_blank(fields[k]));
        assert(config::has_blank(fields));
    }
}

proof fn lemma_bad_command(commands: Seq<RawCommandView>, i: int)
    requires
        0 <= i < commands.len(),
        config::command_error(commands[i]) is Some,
    ensures
        config::commands_error(commands) is Some,
    decreases commands.len(),
{
    if i > 0 {
        assert(commands.drop_first()[i - 1] == commands[i]);
        lemma_bad_command(commands.drop_first(), i - 1);
    }
}

/// A configuration without such a fault is accepted, and its commands run in its
/// root under their names.
pub proof fn law_good_configurations_are_accepted(
    root: Seq<char>,
    fields: Seq<Seq<char>>,
    commands: Seq<RawCommandView>,
    i: int,
)
    requires
        root.len() > 0,
        0 <= i < commands.len(),
        forall|k: int| 0 <= k < fields.len() ==> is_tight(#[trigger] fields[k]),
        forall|k: int|
            0 <= k < commands.len() ==> is_tight((#[trigger] commands[k]).name)
                && commands[k].command.len() > 0 && is_tight(commands[k].command[0]),
    ensures
        config::config_error(
            RawView { root: Some(root), source_fields: fields, commands: Some(commands) },
        ) is None,
        config::config_of(root, fields, commands).root == root,
        config::config_of(root, fields, commands).source_fields == fields,
        config::config_of(root, fields, commands).commands.len() == commands.len(),
        config::config_of(root, fields, commands).commands[i] == (NamedView {
            name: commands[i].name,
            command: commands[i].command,
            cwd: Some(root),
        }),
{
    let none = Seq::<char>::empty();
    assert forall|k: int| 0 <= k < fields.len() implies text::trim(#[trigger] fields[k])
        == fields[k] by {
        texts::law_trimming_keeps_the_text(none, fields[k], none);
    }
    assert(config::all_trimmed(fields) =~= fields);
    assert(!config::has_blank(fields));
    lemma_good_commands(commands);
    texts::law_trimming_keeps_the_text(none, commands[i].name, none);
}

proof fn lemma_good_commands(commands: Seq<RawCommandView>)
    requires
        forall|k: int|
            0 <= k < commands.len() ==> is_tight((#[trigger] commands[k]).name)
                && commands[k].command.len() > 0 && is_tight(commands[k].command[0]),
    ensures
        config::commands_error(commands) is None,
    decreases commands.len(),
{
    if commands.len() > 0 {
        let none = Seq::<char>::empty();
        let rest = commands.drop_first();
        assert(is_tight(commands[0].name));
        texts::law_trimming_keeps_the_text(none, commands[0].name, none);
        texts::law_trimming_keeps_the_text(none, commands[0].command[0], none);
        assert forall|k: int| 0 <= k < rest.len() implies is_tight((#[trigger] rest[k]).name)
            && rest[k].command.len() > 0 && is_tight(rest[k].command[0]) by {
            assert(rest[k] == commands[k + 1]);
        }
        lemma_good_commands(rest);
    }
}

// ---------------------------------------------------------------------------
// Starting
// ---------------------------------------------------------------------------

/// A command waits for the commands that it names.
pub proof fn law_commands_wait_for_those_they_name(
    commands: Seq<StartView>,
    i: int,
    j: int,
    k: int,
)
    requires
        0 <= i < commands.len(),
        0 <= j < commands[i].wait_for.len(),
        0 <= k < commands.len(),
        commands[k].name == commands[i].wait_for[j],
        forall|other: int|
            0 <= other < commands.len() && other != k ==> (#[trigger] commands[other]).name
                != commands[k].name,
    ensures
        start_plan::waits(commands, i)[j] == k,
        start_plan::waits(commands, i).len() == commands[i].wait_for.len(),
{
    lemma_named(commands, commands[k].name, commands.len() as int, k);
}

proof fn lemma_named(commands: Seq<StartView>, name: Seq<char>, count: int, k: int)
    requires
        0 <= k < count <= commands.len(),
        commands[k].name == name,
        forall|other: int|
            0 <= other < commands.len() && other != k ==> (#[trigger] commands[other]).name != name,
    ensures
        start_plan::named_within(commands, name, count) == k,
    decreases count,
{
    if count - 1 != k {
        assert(commands[count - 1].name != name);
        lemma_named(commands, name, count - 1, k);
    }
}

proof fn lemma_not_named(commands: Seq<StartView>, name: Seq<char>, count: int)
    requires
        0 <= count <= commands.len(),
        forall|other: int|
            0 <= other < commands.len() ==> (#[trigger] commands[other]).name != name,
    ensures
        start_plan::named_within(commands, name, count) == commands.len(),
    decreases count,
{
    if count > 0 {
        assert(commands[count - 1].name != name);
        lemma_not_named(commands, name, count - 1);
    }
}

/// A command that waits for what is no command cannot be started with the others.
pub proof fn law_unknown_dependency_is_refused(commands: Seq<StartView>, i: int, j: int)
    requires
        0 <= i < commands.len(),
        0 <= j < commands[i].wait_for.len(),
        forall|k: int|
            0 <= k < commands.len() ==> (#[trigger] commands[k]).name != commands[i].wait_for[j],
    ensures
        start_plan::plan_error(commands) is Some,
        start_plan::plan_error(commands)->0 is UnknownDependency,
{
    lemma_not_named(commands, commands[i].wait_for[j], commands.len() as int);
    lemma_unknown_in(commands, commands[i].wait_for, j);
    lemma_unknown_from(commands, 0, i);
}

proof fn lemma_unknown_in(commands: Seq<StartView>, wait_for: Seq<Seq<char>>, j: int)
    requires
        0 <= j < wait_for.len(),
        start_plan::named(commands, wait_for[j]) == commands.len(),
    ensures
        0 <= start_plan::unknown_in(commands, wait_for) <= j,
    decreases wait_for.len(),
{
    if j > 0 && start_plan::named(commands, wait_for[0]) != commands.len() {
        assert(wait_for.drop_first()[j - 1] == wait_for[j]);
        lemma_unknown_in(commands, wait_for.drop_first(), j - 1);
    }
}

proof fn lemma_unknown_from(commands: Seq<StartView>, index: int, i: int)
    requires
        0 <= index <= i < commands.len(),
        start_plan::unknown_in(commands, commands[i].wait_for) < commands[i].wait_for.len(),
    ensures
        start_plan::unknown_from(commands, index) <= i,
    decreases i - index,
{
    if index < i && !(start_plan::unknown_in(commands, commands[index].wait_for)
        < commands[index].wait_for.len()) {
        lemma_unknown_from(commands, index + 1, i);
    }
}

/// A command can be started once all the commands that it names are ready, and not
/// before.
pub proof fn law_command_starts_once_others_are_ready(
    schedule: ScheduleView,
    i: int,
    j: int,
    k: int,
)
    requires
        schedule.states.len() == schedule.commands.len(),
        0 <= i < schedule.commands.len(),
        0 <= k < schedule.commands.len(),
        forall|other: int|
            0 <= other < schedule.commands.len() && other != k ==> (
            #[trigger] schedule.commands[other]).name != schedule.commands[k].name,
    ensures
        schedule.commands[i].wait_for.len() == 0 ==> schedule.unblocked(i),
        0 <= j < schedule.commands[i].wait_for.len() && schedule.commands[i].wait_for[j]
            == schedule.commands[k].name && schedule.states[k] != StartState::Ready
            ==> !schedule.unblocked(i),
        schedule.commands[i].wait_for == seq![schedule.commands[k].name] && schedule.states[k]
            == StartState::Ready ==> schedule.unblocked(i),
{
    let waits = start_plan::waits(schedule.commands, i);
    if 0 <= j < schedule.commands[i].wait_for.len() && schedule.commands[i].wait_for[j]
        == schedule.commands[k].name {
        law_commands_wait_for_those_they_name(schedule.commands, i, j, k);
        assert(waits[j] == k);
    }
    if schedule.commands[i].wait_for == seq![schedule.commands[k].name] {
        assert(schedule.commands[i].wait_for[0] == schedule.commands[k].name);
        law_commands_wait_for_those_they_name(schedule.commands, i, 0, k);
        assert(waits[0] == k);
    }
}

/// The next command to be started is the first one that can be.
pub proof fn law_first_command_that_can_starts(schedule: ScheduleView, from: int, i: int)
    requires
        0 <= from <= i < schedule.states.len(),
        schedule.states[i] == StartState::Pending,
        schedule.unblocked(i),
        forall|k: int|
            from <= k < i ==> #[trigger] schedule.states[k] != StartState::Pending
                || !schedule.unblocked(k),
    ensures
        schedule.next_from(from) == i,
    decreases i - from,
{
    if from < i {
        assert(schedule.states[from] != StartState::Pending || !schedule.unblocked(from));
        law_first_command_that_can_starts(schedule, from + 1, i);
    }
}

/// A command without a sign of readiness is ready once it is started; any other is
/// waited for, for as long as it says, and asked at once where it is to be asked.
pub proof fn law_started_commands_are_waited_for(
    schedule: ScheduleView,
    i: int,
    now: int,
    line: Seq<char>,
    command: Seq<Seq<char>>,
    interval: u64,
    timeout: u64,
)
    requires
        0 <= i < schedule.commands.len(),
        schedule.states.len() == schedule.commands.len(),
        schedule.waiting.len() == schedule.commands.len(),
    ensures
        ({
            let after = schedule.spawned(i, now);
            let ready = schedule.commands[i].ready;
            &&& ready is None ==> after.states[i] == StartState::Ready
            &&& ready is Some ==> after.states[i] == StartState::Started && after.waiting[i] is Some
            &&& ready == Some(ReadyView::Line { text: line, timeout }) ==> after.waiting[i]
                == Some(
                WaitView { probe: None, deadline: now + timeout, outputs: Seq::empty() },
            )
            &&& ready == Some(ReadyView::Command { command, interval, timeout })
                ==> after.waiting[i] == Some(
                WaitView {
                    probe: Some(
                        ProbeView { command, interval: interval as int, next: now },
                    ),
                    deadline: now + timeout,
                    outputs: Seq::empty(),
                },
            )
        }),
{
}

/// A command that is waited for is ready once its line is read; it has failed once
/// its time is up.
pub proof fn law_waiting_ends(schedule: ScheduleView, i: int, now: int, wait: WaitView)
    requires
        0 <= i < schedule.states.len(),
        i < schedule.waiting.len(),
        schedule.waiting[i] == Some(wait),
        wait.outputs.len() == 0,
    ensures
        schedule.checked(i, true, now).1 == ReadinessView::Ready,
        schedule.checked(i, true, now).0.states[i] == StartState::Ready,
        wait.probe is None && now < wait.deadline ==> schedule.checked(i, false, now) == (
            schedule,
            ReadinessView::Wait,
        ),
        wait.probe is None && now >= wait.deadline ==> schedule.checked(i, false, now).1
            == ReadinessView::Failed(
            "command '"@ + schedule.commands[i].name + "' readiness timed out"@,
        ),
        wait.probe is Some && now >= wait.probe->0.next ==> schedule.checked(i, false, now).1
            == ReadinessView::Probe,
        wait.probe is Some && now < wait.probe->0.next && now < wait.deadline ==> schedule.checked(
            i,
            false,
            now,
        ).1 == ReadinessView::Wait,
{
    assert(split::join(wait.outputs, "\n---\n"@).len() == 0);
}

/// A command that is asked is ready where it says so; otherwise it is asked again
/// after a while, and an answer that came too late is a failure.
pub proof fn law_answers_are_taken(
    schedule: ScheduleView,
    i: int,
    now: int,
    wait: WaitView,
    output: Seq<char>,
)
    requires
        0 <= i < schedule.states.len(),
        i < schedule.waiting.len(),
        schedule.waiting[i] == Some(wait),
        wait.probe is Some,
    ensures
        schedule.asked(i, true, false, output, now).1 == ReadinessView::Ready,
        schedule.asked(i, true, false, output, now).0.states[i] == StartState::Ready,
        schedule.asked(i, false, true, output, now).1 is Failed,
        now < wait.deadline ==> schedule.asked(i, false, false, output, now).1
            == ReadinessView::Wait,
        now >= wait.deadline ==> schedule.asked(i, false, false, output, now).1 is Failed,
        ({
            let after = schedule.asked(i, false, false, output, now).0;
            &&& after.states == schedule.states
            &&& after.waiting[i] is Some
            &&& after.waiting[i]->0.probe is Some
            &&& after.waiting[i]->0.probe->0.next == now + wait.probe->0.interval
            &&& after.waiting[i]->0.deadline == wait.deadline
        }),
{
}

// ---------------------------------------------------------------------------
// Reading and ending
// ---------------------------------------------------------------------------

/// A line of a command is named after it, and the first one that holds the sign of
/// readiness shows it to be ready.
pub proof fn law_lines_are_named_and_watched(
    reader: ReaderView,
    name: Seq<char>,
    head: Seq<char>,
    sign: Seq<char>,
    tail: Seq<char>,
)
    ensures
        reader.source == Some(name) ==> reader.named(head) == seq!['['] + name + seq![']', ' ']
            + head,
        reader.source is None ==> reader.named(head) == head,
        reader.ready_line == Some(sign) ==> reader.is_ready(head + sign + tail)
            && reader.after(head + sign + tail).signaled,
        reader.ready_line is None ==> !reader.is_ready(head),
        reader.signaled ==> reader.after(head).signaled,
{
    reveal_strlit("[");
    reveal_strlit("] ");
    assert("["@ =~= seq!['[']);
    assert("] "@ =~= seq![']', ' ']);
    assert(text::eq_ignore_case(sign, sign));
    texts::law_parts_are_held(head, sign, tail, sign);
}

/// Of the lines before the screen is there the last ones are kept, as many as are
/// retained.
pub proof fn law_last_lines_are_kept(lines: Seq<Seq<char>>, line: Seq<char>, capacity: int)
    requires
        0 < capacity,
        lines.len() <= capacity,
    ensures
        input::kept(lines, line, capacity).last() == line,
        input::kept(lines, line, capacity).len() == if lines.len() < capacity {
            lines.len() + 1
        } else {
            lines.len()
        },
        lines.len() < capacity ==> input::kept(lines, line, capacity) == lines.push(line),
        lines.len() == capacity ==> input::kept(lines, line, capacity)
            == lines.drop_first().push(line),
        input::kept(lines, line, 0) == lines,
{
    if lines.len() == capacity {
        assert(lines.skip(lines.len() - capacity + 1) =~= lines.drop_first());
    }
}

/// A command that is ended is interrupted, after five seconds terminated, and after
/// two more killed, again and again; before its time nothing happens, and once it
/// has ended it is left alone.
pub proof fn law_endings_escalate(ending: ChildShutdown, now: u64)
    requires
        now <= u64::MAX - 10000,
    ensures
        shutdown::INTERRUPT_TIMEOUT == 5000,
        shutdown::TERMINATE_TIMEOUT == 2000,
        shutdown::KILL_RETRY_TIMEOUT == 500,
        now < ending.next_escalation ==> ending.ticked(false, now) == ending,
        now >= ending.next_escalation && ending.signal == ShutdownSignal::Interrupt
            ==> ending.ticked(false, now).signal == ShutdownSignal::Terminate && ending.ticked(
            false,
            now,
        ).next_escalation == now + 2000,
        now >= ending.next_escalation && ending.signal != ShutdownSignal::Interrupt
            ==> ending.ticked(false, now).signal == ShutdownSignal::Kill && ending.ticked(
            false,
            now,
        ).next_escalation == now + 500,
        ending.ticked(true, now).finished,
        ending.ticked(true, now).progress() == ShutdownStatus::Exited,
        !ending.finished ==> ending.progress() == ShutdownStatus::Waiting(ending.signal),
{
}

/// What is said while commands end is what was done to the first one that has not.
pub proof fn law_closing_tells_of_the_first_left(
    endings: Seq<ChildShutdown>,
    i: int,
)
    requires
        0 <= i < endings.len(),
        !endings[i].finished,
        forall|k: int| 0 <= k < i ==> (#[trigger] endings[k]).finished,
    ensures
        shutdown::first_waiting(endings) == ShutdownStatus::Waiting(endings[i].signal),
        shutdown::closing_text(ShutdownStatus::Waiting(ShutdownSignal::Interrupt))
            == "closing... sent interrupt"@,
        shutdown::closing_text(ShutdownStatus::Waiting(ShutdownSignal::Terminate))
            == "closing... terminating children"@,
        shutdown::closing_text(ShutdownStatus::Waiting(ShutdownSignal::Kill))
            == "closing... force killing children"@,
    decreases endings.len(),
{
    if i > 0 {
        let rest = endings.drop_first();
        assert(endings[0].finished);
        assert forall|k: int| 0 <= k < i - 1 implies (#[trigger] rest[k]).finished by {
            assert(rest[k] == endings[k + 1]);
        }
        assert(rest[i - 1] == endings[i]);
        law_closing_tells_of_the_first_left(rest, i - 1);
    }
}

/// Lines that wait to be recorded take up to eight mebibytes; what would be more is
/// refused.
pub proof fn law_waiting_lines_are_bounded(queued: int, line: int)
    ensures
        MAX_QUEUED_BYTES == 8 * 1024 * 1024,
        MAX_QUEUED_LINES == 1024,
        queued + line <= 8 * 1024 * 1024 ==> recording::enqueued(queued, line) == Some(
            queued + line,
        ),
        queued + line > 8 * 1024 * 1024 ==> recording::enqueued(queued, line) is None,
{
}

/// The output of a probe is told under its kind, without the blanks after it, and
/// only where there is some; the last outputs are kept.
pub proof fn law_probe_outputs_are_told(
    pad: Seq<char>,
    out: Seq<char>,
    err: Seq<char>,
    outputs: Seq<Seq<char>>,
)
    requires
        is_blank(pad),
        is_tight(out),
        is_tight(err),
    ensures
        schedule::output_text(pad + out + pad, err) == "stdout:\n"@ + (pad + out) + "\n"@ + (
        "stderr:\n"@ + err),
        schedule::output_text(out, pad) == "stdout:\n"@ + out,
        schedule::output_text(pad, err) == "stderr:\n"@ + err,
        schedule::output_text(pad, pad).len() == 0,
        schedule::noted(outputs, Seq::empty()) == outputs,
        schedule::noted(outputs, out).len() > 0 ==> schedule::noted(outputs, out).last() == out,
        outputs.len() == 0 ==> schedule::noted(outputs, out) == seq![out],
{
    let none = Seq::<char>::empty();
    reveal_strlit("stdout:\n");
    reveal_strlit("stderr:\n");
    texts::law_trimming_keeps_the_text(pad, out, pad);
    texts::law_trimming_keeps_the_text(none, out, none);
    texts::law_trimming_keeps_the_text(none, err, none);
    texts::law_trimming_keeps_the_text(pad, none, none);
    assert(pad + none + none =~= pad);
    assert("stdout:\n"@ + out + none =~= "stdout:\n"@ + out);
    assert(none + ("stderr:\n"@ + err) =~= "stderr:\n"@ + err);
    assert(outputs.push(out).last() == out);
    if outputs.len() == 0 {
        assert(outputs.push(out) =~= seq![out]);
    }
}

/// An input is told in one line: a command as it is run, several by their names.
pub proof fn law_inputs_are_told_in_one_line(
    command: Seq<Seq<char>>,
    first: NamedView,
    second: NamedView,
)
    requires
        first.name.len() > 0,
    ensures
        cli::input_summary(InputView::Stdin) == "stdin"@,
        cli::input_summary(InputView::Command(command)) == split::join(command, " "@),
        cli::input_summary(InputView::Commands(seq![first, second])) == "run"@ + " "@ + (first.name
            + ", "@ + second.name),
        cli::input_summary(InputView::StartCommands(seq![first.started(), second.started()]))
            == "start"@ + " "@ + (first.name + ", "@ + second.name),
        first.started().name == first.name,
        first.started().argv == first.command,
        first.started().cwd == first.cwd,
        first.started().wait_for.len() == 0,
        first.started().ready is None,
{
    texts::law_joining_separates(seq![first.name], second.name, ", "@);
    texts::law_joining_separates(Seq::empty(), first.name, ", "@);
    let run = seq![first, second];
    let start = seq![first.started(), second.started()];
    let names = seq![first.name].push(second.name);
    assert(Seq::new(run.len(), |i: int| run[i].name) =~= names);
    assert(Seq::new(start.len(), |i: int| start[i].name) =~= names);
}

/// What is wrong with a configuration is told with where it is.
pub proof fn law_config_errors_are_told(a: Seq<char>, b: Seq<char>)
    ensures
        (ConfigErrorView::InvalidName { name: a }).message() == "invalid config name '"@ + a
            + "': named configs must be simple names without path separators"@,
        ConfigErrorView::MissingFile(a).message() == "config file not found: "@ + a,
        (ConfigErrorView::Read { path: a, reason: b }).message() == "failed to read config"@ + " "@
            + a + ": "@ + b,
        (ConfigErrorView::Parse { path: Some(a), reason: b }).message()
            == "failed to parse config"@ + " "@ + a + ": "@ + b,
        (ConfigErrorView::Validation { path: Some(a), message: b }).message()
            == "invalid config"@ + " "@ + a + ": "@ + b,
        (ConfigErrorView::Validation { path: None, message: b }).message() == "invalid config"@
            + ": "@ + b,
        (PlanErrorView::UnknownDependency { command: a, dependency: b }).message() == "command '"@
            + a + "' waits for unknown command '"@ + b + "'"@,
{
}

} // verus!
