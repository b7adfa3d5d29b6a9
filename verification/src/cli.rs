//! What is given on the command line, and what is printed there.
use crate::config::{self, StartConfig};
use crate::model::{self, Level};
use crate::page_log::registry::{ActiveLogPage, PageView};
use crate::runtime::{
    InputView, NamedCommand, NamedView, RuntimeInput, StartCommand, StartView,
};
use crate::text::number::{self, decimal_string};
use crate::text::split::{self, join_strings};
use crate::text::{
    self, char_is_digit, chars_of, chars_trim, concat, concat3, copy_str, same, string_of,
};
use std::collections::VecDeque;
use vstd::prelude::*;

verus! {

broadcast use text::lemma_views_push;

// ---------------------------------------------------------------------------
// Numbers and texts
// ---------------------------------------------------------------------------

/// The value of a digit.
pub open spec fn digit_value(c: char) -> int {
    c as int - '0' as int
}

/// The number that digits are, or what is wrong with the first character at
/// which they are none.
pub open spec fn number_of(digits: Seq<char>) -> Result<int, Seq<char>>
    decreases digits.len(),
{
    if digits.len() == 0 {
        Ok(0)
    } else {
        match number_of(digits.drop_last()) {
            Err(error) => Err(error),
            Ok(value) => if !text::is_digit(digits.last()) {
                Err("invalid digit found in string"@)
            } else if value * 10 + digit_value(digits.last()) > usize::MAX {
                Err("number too large to fit in target type"@)
            } else {
                Ok(value * 10 + digit_value(digits.last()))
            },
        }
    }
}

/// The number that a text is.
pub open spec fn read_number(input: Seq<char>) -> Result<int, Seq<char>> {
    if input.len() == 0 {
        Err("cannot parse integer from empty string"@)
    } else if input.len() > 1 && input[0] == '+' {
        number_of(input.drop_first())
    } else {
        number_of(input)
    }
}

/// Reads a number.
pub fn parse_number(input: &str) -> (result: Result<usize, String>)
    ensures
        match result {
            Ok(value) => read_number(input@) == Ok::<int, Seq<char>>(value as int),
            Err(error) => read_number(input@) == Err::<int, Seq<char>>(error@),
        },
{
    let chars = chars_of(input);
    if chars.len() == 0 {
        return Err(copy_str("cannot parse integer from empty string"));
    }
    let start: usize = if chars.len() > 1 && chars[0] == '+' {
        1
    } else {
        0
    };
    let ghost digits = if start == 1 {
        input@.drop_first()
    } else {
        input@
    };
    assert(digits =~= chars@.skip(start as int));
    let mut value: usize = 0;
    let mut i: usize = start;
    assert(digits.take(0) =~= Seq::<char>::empty());
    while i < chars.len()
        invariant
            start <= i <= chars@.len(),
            start <= 1,
            digits == chars@.skip(start as int),
            number_of(digits.take(i - start)) == Ok::<int, Seq<char>>(value as int),
            read_number(input@) == number_of(digits),
        decreases chars@.len() - i,
    {
        let c = chars[i];
        let ghost before = digits.take(i - start);
        let ghost after = digits.take(i - start + 1);
        assert(after.drop_last() =~= before);
        assert(after.last() == c);
        if !char_is_digit(c) {
            proof {
                lemma_error_stays(digits, i - start + 1);
            }
            return Err(copy_str("invalid digit found in string"));
        }
        let digit: usize = (c as u32 - 48) as usize;
        let next: Option<usize> = match value.checked_mul(10) {
            Some(product) => product.checked_add(digit),
            None => None,
        };
        match next {
            Some(sum) => {
                value = sum;
            },
            None => {
                proof {
                    lemma_error_stays(digits, i - start + 1);
                }
                return Err(copy_str("number too large to fit in target type"));
            },
        }
        i += 1;
    }
    assert(digits.take(i - start) =~= digits);
    Ok(value)
}

/// What is wrong with the beginning of a text is wrong with it.
proof fn lemma_error_stays(digits: Seq<char>, count: int)
    requires
        0 <= count <= digits.len(),
        number_of(digits.take(count)) is Err,
    ensures
        number_of(digits) == number_of(digits.take(count)),
    decreases digits.len() - count,
{
    if count < digits.len() {
        assert(digits.take(count + 1).drop_last() =~= digits.take(count));
        lemma_error_stays(digits, count + 1);
    } else {
        assert(digits.take(count) =~= digits);
    }
}

/// Reads how many events are kept.
pub fn parse_buffer_lines(input: &str) -> (result: Result<usize, String>)
    ensures
        match (result, read_number(input@)) {
            (Ok(value), Ok(number)) => value == number && value > 0,
            (Err(error), Ok(number)) => number == 0 && error@
                == "buffer size must be greater than zero"@,
            (Err(error), Err(reason)) => error@ == "invalid buffer size: "@ + reason,
            (Ok(_), Err(_)) => false,
        },
{
    match parse_number(input) {
        Ok(value) => if value == 0 {
            Err(copy_str("buffer size must be greater than zero"))
        } else {
            Ok(value)
        },
        Err(error) => Err(concat("invalid buffer size: ", error.as_str())),
    }
}

/// Reads how many lines are asked for.
pub fn parse_tail_lines(input: &str) -> (result: Result<usize, String>)
    ensures
        match (result, read_number(input@)) {
            (Ok(value), Ok(number)) => value == number,
            (Err(error), Err(reason)) => error@ == "invalid line count: "@ + reason,
            _ => false,
        },
{
    match parse_number(input) {
        Ok(value) => Ok(value),
        Err(error) => Err(concat("invalid line count: ", error.as_str())),
    }
}

/// Reads a text that is more than space.
pub fn parse_non_empty(input: &str, label: &str) -> (result: Result<String, String>)
    ensures
        match result {
            Ok(value) => text::trim(input@).len() > 0 && value@ == text::trim(input@),
            Err(error) => text::trim(input@).len() == 0 && error@ == label@
                + " must not be empty"@,
        },
{
    let chars = chars_of(input);
    let trimmed = string_of(chars_trim(chars.as_slice()));
    if trimmed.as_str().is_empty() {
        Err(concat(label, " must not be empty"))
    } else {
        Ok(trimmed)
    }
}

/// Reads the name of a field that names sources.
pub fn parse_source_field(input: &str) -> (result: Result<String, String>)
    ensures
        match result {
            Ok(value) => text::trim(input@).len() > 0 && value@ == text::trim(input@),
            Err(error) => text::trim(input@).len() == 0 && error@ == "source field"@
                + " must not be empty"@,
        },
{
    parse_non_empty(input, "source field")
}

/// Reads the source that is asked for.
pub fn parse_source_filter(input: &str) -> (result: Result<String, String>)
    ensures
        match result {
            Ok(value) => text::trim(input@).len() > 0 && value@ == text::trim(input@),
            Err(error) => text::trim(input@).len() == 0 && error@ == "source filter"@
                + " must not be empty"@,
        },
{
    parse_non_empty(input, "source filter")
}

/// Reads the condition on a property that is asked for.
pub fn parse_property_filter(input: &str) -> (result: Result<String, String>)
    ensures
        match result {
            Ok(value) => text::trim(input@).len() > 0 && value@ == text::trim(input@),
            Err(error) => text::trim(input@).len() == 0 && error@ == "property filter"@
                + " must not be empty"@,
        },
{
    parse_non_empty(input, "property filter")
}

/// Reads the text that is asked for.
pub fn parse_text_filter(input: &str) -> (result: Result<String, String>)
    ensures
        match result {
            Ok(value) => text::trim(input@).len() > 0 && value@ == text::trim(input@),
            Err(error) => text::trim(input@).len() == 0 && error@ == "text filter"@
                + " must not be empty"@,
        },
{
    parse_non_empty(input, "text filter")
}

/// Reads the level that is asked for.
pub fn parse_level(input: &str) -> (result: Result<Level, String>)
    ensures
        match result {
            Ok(level) => model::level_of(input@) == Some(level),
            Err(error) => model::level_of(input@) is None && error@ == "invalid level '"@ + input@
                + "'; expected one of: fatal, error, warn, info, debug, trace, unknown"@,
        },
{
    match Level::parse(input) {
        Some(level) => Ok(level),
        None => Err(
            concat3(
                "invalid level '",
                input,
                "'; expected one of: fatal, error, warn, info, debug, trace, unknown",
            ),
        ),
    }
}

/// The fields given on the command line before those of the configuration.
pub fn merged_source_fields(
    cli_source_fields: Vec<String>,
    config_source_fields: Vec<String>,
) -> (result: Vec<String>)
    ensures
        result@ == cli_source_fields@ + config_source_fields@,
{
    let mut result = cli_source_fields;
    let mut i: usize = 0;
    assert(cli_source_fields@ + config_source_fields@.take(0) =~= cli_source_fields@);
    while i < config_source_fields.len()
        invariant
            i <= config_source_fields@.len(),
            result@ == cli_source_fields@ + config_source_fields@.take(i as int),
        decreases config_source_fields@.len() - i,
    {
        result.push(config_source_fields[i].clone());
        assert(cli_source_fields@ + config_source_fields@.take(i + 1) =~= (cli_source_fields@
            + config_source_fields@.take(i as int)).push(config_source_fields@[i as int]));
        i += 1;
    }
    assert(config_source_fields@.take(i as int) =~= config_source_fields@);
    result
}

// ---------------------------------------------------------------------------
// What is run
// ---------------------------------------------------------------------------

/// What is asked for: lines from somewhere, or those of a configuration.
#[derive(Debug, PartialEq, Eq)]
pub enum RuntimeRequest {
    Input(RuntimeInput),
    ProjectConfig,
    NamedConfig(String),
}

/// What a request is.
pub enum RequestView {
    Input(InputView),
    ProjectConfig,
    NamedConfig(Seq<char>),
}

impl View for RuntimeRequest {
    type V = RequestView;

    open spec fn view(&self) -> RequestView {
        match self {
            RuntimeRequest::Input(input) => RequestView::Input(input@),
            RuntimeRequest::ProjectConfig => RequestView::ProjectConfig,
            RuntimeRequest::NamedConfig(name) => RequestView::NamedConfig(name@),
        }
    }
}

/// The first argument that begins another command, or the number of arguments.
pub open spec fn next_name(args: Seq<Seq<char>>) -> int
    decreases args.len(),
{
    if args.len() == 0 || args[0] == "--name"@ {
        0
    } else {
        1 + next_name(args.drop_first())
    }
}

/// The commands that arguments name: each a name after `--name`, and what it
/// runs after `--`.
pub open spec fn runner_commands(args: Seq<Seq<char>>) -> Result<Seq<NamedView>, Seq<char>>
    decreases args.len(),
{
    if args.len() == 0 {
        Ok(Seq::empty())
    } else if args[0] != "--name"@ {
        Err("runner commands must start with --name <name> -- <command>"@)
    } else if args.len() < 2 || text::trim(args[1]).len() == 0 || text::trim(args[1]) == "--"@ {
        Err("--name requires a process name"@)
    } else {
        let name = text::trim(args[1]);
        if args.len() < 3 || args[2] != "--"@ {
            Err("runner command '"@ + name + "' must include -- before the command"@)
        } else {
            let rest = args.skip(3);
            let count = next_name(rest);
            if count <= 0 {
                Err("runner command '"@ + name + "' is empty"@)
            } else {
                let command = NamedView { name, command: rest.take(count), cwd: None };
                proof {
                    lemma_next_name(rest);
                }
                match runner_commands(rest.skip(count)) {
                    Ok(more) => Ok(seq![command] + more),
                    Err(error) => Err(error),
                }
            }
        }
    }
}

/// A command as it is run: `dc` is short for `docker compose up`.
pub open spec fn expanded(command: Seq<Seq<char>>) -> Seq<Seq<char>> {
    if command == seq!["dc"@] {
        seq!["docker"@, "compose"@, "up"@]
    } else {
        command
    }
}

/// What a command line asks for.
pub open spec fn request_of(command: Seq<Seq<char>>) -> Result<RequestView, Seq<char>> {
    if command.len() == 0 {
        Ok(RequestView::Input(InputView::Stdin))
    } else if command[0] == "run"@ {
        if command.len() == 1 {
            Err("runner mode requires at least one --name <name> -- <command>"@)
        } else {
            match runner_commands(command.skip(1)) {
                Ok(commands) => Ok(RequestView::Input(InputView::Commands(commands))),
                Err(error) => Err(error),
            }
        }
    } else if command[0] == "start"@ {
        if command.len() > 2 {
            Err("start accepts at most one config name"@)
        } else if command.len() == 2 {
            Ok(RequestView::NamedConfig(command[1]))
        } else {
            Ok(RequestView::ProjectConfig)
        }
    } else {
        Ok(RequestView::Input(InputView::Command(expanded(command))))
    }
}

fn find_name(args: &[String], from: usize) -> (result: usize)
    requires
        from <= args@.len(),
    ensures
        result == from + next_name(text::views(args@).skip(from as int)),
        from <= result <= args@.len(),
{
    let ghost all = text::views(args@);
    let mut i: usize = from;
    while i < args.len()
        invariant
            from <= i <= args@.len(),
            all == text::views(args@),
            from + next_name(all.skip(from as int)) == i + next_name(all.skip(i as int)),
        decreases args@.len() - i,
    {
        assert(all.skip(i as int)[0] == args@[i as int]@);
        if same(args[i].as_str(), "--name") {
            return i;
        }
        assert(all.skip(i as int).drop_first() =~= all.skip(i + 1));
        i += 1;
    }
    i
}

fn copy_range(args: &[String], from: usize, to: usize) -> (result: Vec<String>)
    requires
        from <= to <= args@.len(),
    ensures
        text::views(result@) == text::views(args@).subrange(from as int, to as int),
{
    let ghost all = text::views(args@);
    let mut result: Vec<String> = Vec::new();
    let mut i: usize = from;
    assert(text::views(result@) =~= all.subrange(from as int, from as int));
    while i < to
        invariant
            from <= i <= to <= args@.len(),
            all == text::views(args@),
            text::views(result@) == all.subrange(from as int, i as int),
        decreases to - i,
    {
        result.push(args[i].clone());
        assert(all.subrange(from as int, i + 1) =~= all.subrange(from as int, i as int).push(
            all[i as int],
        ));
        i += 1;
    }
    result
}

/// The commands that arguments name.
pub fn parse_runner_commands(args: &[String]) -> (result: Result<Vec<NamedCommand>, String>)
    ensures
        match result {
            Ok(commands) => args@.len() > 0 && runner_commands(text::views(args@)) == Ok::<
                Seq<NamedView>,
                Seq<char>,
            >(text::views(commands@)),
            Err(error) => if args@.len() == 0 {
                error@ == "runner mode requires at least one --name <name> -- <command>"@
            } else {
                runner_commands(text::views(args@)) == Err::<Seq<NamedView>, Seq<char>>(error@)
            },
        },
{
    if args.len() == 0 {
        return Err(copy_str("runner mode requires at least one --name <name> -- <command>"));
    }
    let ghost all = text::views(args@);
    let mut commands: Vec<NamedCommand> = Vec::new();
    let mut index: usize = 0;
    assert(all.skip(0) =~= all);
    assert(text::views(commands@) =~= Seq::<NamedView>::empty());
    proof {
        match runner_commands(all) {
            Ok(more) => {
                assert(Seq::<NamedView>::empty() + more =~= more);
            },
            Err(_) => {},
        }
    }
    while index < args.len()
        invariant
            index <= args@.len(),
            all == text::views(args@),
            runner_commands(all) == match runner_commands(all.skip(index as int)) {
                Ok(more) => Ok::<Seq<NamedView>, Seq<char>>(text::views(commands@) + more),
                Err(error) => Err(error),
            },
        decreases args@.len() - index,
    {
        let ghost left = all.skip(index as int);
        assert(left[0] == args@[index as int]@);
        if !same(args[index].as_str(), "--name") {
            return Err(copy_str("runner commands must start with --name <name> -- <command>"));
        }
        if args.len() - index < 2 {
            return Err(copy_str("--name requires a process name"));
        }
        assert(left[1] == args@[index + 1]@);
        let chars = chars_of(args[index + 1].as_str());
        let name = string_of(chars_trim(chars.as_slice()));
        if name.as_str().is_empty() || same(name.as_str(), "--") {
            return Err(copy_str("--name requires a process name"));
        }
        if args.len() - index < 3 {
            return Err(
                concat3("runner command '", name.as_str(), "' must include -- before the command"),
            );
        }
        assert(left[2] == args@[index + 2]@);
        if !same(args[index + 2].as_str(), "--") {
            return Err(
                concat3("runner command '", name.as_str(), "' must include -- before the command"),
            );
        }
        let start = index + 3;
        let ghost rest = left.skip(3);
        assert(rest =~= all.skip(start as int));
        let end = find_name(args, start);
        if start == end {
            return Err(concat3("runner command '", name.as_str(), "' is empty"));
        }
        let command = NamedCommand { name, command: copy_range(args, start, end), cwd: None };
        assert(all.subrange(start as int, end as int) =~= rest.take(end - start));
        assert(rest.skip(end - start) =~= all.skip(end as int));
        let ghost before = text::views(commands@);
        commands.push(command);
        proof {
            match runner_commands(all.skip(end as int)) {
                Ok(more) => {
                    assert(before + (seq![command@] + more) =~= before.push(command@) + more);
                },
                Err(_) => {},
            }
        }
        index = end;
    }
    assert(all.skip(index as int) =~= Seq::<Seq<char>>::empty());
    assert(text::views(commands@) + Seq::<NamedView>::empty() =~= text::views(commands@));
    Ok(commands)
}

/// A command as it is run.
pub fn command_for_runtime(command: Vec<String>) -> (result: Vec<String>)
    ensures
        text::views(result@) == expanded(text::views(command@)),
{
    if command.len() == 1 && same(command[0].as_str(), "dc") {
        assert(text::views(command@) =~= seq!["dc"@]);
        let mut result: Vec<String> = Vec::new();
        result.push(copy_str("docker"));
        result.push(copy_str("compose"));
        result.push(copy_str("up"));
        assert(text::views(result@) =~= seq!["docker"@, "compose"@, "up"@]);
        return result;
    }
    proof {
        if text::views(command@) == seq!["dc"@] {
            let only = seq!["dc"@];
            assert(only.len() == 1 && only[0] == "dc"@);
            assert(text::views(command@).len() == command@.len());
            assert(text::views(command@)[0] == command@[0]@);
        }
    }
    command
}

/// What a command line asks for.
pub fn runtime_request(command: Vec<String>) -> (result: Result<RuntimeRequest, String>)
    ensures
        match result {
            Ok(request) => request_of(text::views(command@)) == Ok::<RequestView, Seq<char>>(
                request@,
            ),
            Err(error) => request_of(text::views(command@)) == Err::<RequestView, Seq<char>>(
                error@,
            ),
        },
{
    let ghost all = text::views(command@);
    assert(all.len() == command@.len());
    if command.len() == 0 {
        return Ok(RuntimeRequest::Input(RuntimeInput::Stdin));
    }
    assert(all[0] == command@[0]@);
    if same(command[0].as_str(), "run") {
        let args = copy_range(command.as_slice(), 1, command.len());
        assert(text::views(args@) =~= all.skip(1));
        assert(text::views(args@).len() == args@.len());
        return match parse_runner_commands(args.as_slice()) {
            Ok(commands) => Ok(RuntimeRequest::Input(RuntimeInput::Commands(commands))),
            Err(error) => Err(error),
        };
    }
    if same(command[0].as_str(), "start") {
        if command.len() > 2 {
            return Err(copy_str("start accepts at most one config name"));
        }
        if command.len() == 2 {
            assert(all[1] == command@[1]@);
            return Ok(RuntimeRequest::NamedConfig(command[1].clone()));
        }
        return Ok(RuntimeRequest::ProjectConfig);
    }
    Ok(RuntimeRequest::Input(RuntimeInput::Command(command_for_runtime(command))))
}

/// Where lines come from, with the fields of a configuration that name sources.
#[derive(Debug, PartialEq, Eq)]
pub struct ResolvedRuntimeInput {
    pub input: RuntimeInput,
    pub source_fields: Vec<String>,
}

/// The commands of a configuration as they are started.
pub open spec fn all_started(commands: Seq<NamedView>) -> Seq<StartView> {
    Seq::new(commands.len(), |i: int| commands[i].started())
}

impl ResolvedRuntimeInput {
    /// Lines from somewhere, without a configuration.
    pub fn new(input: RuntimeInput) -> (result: Self)
        ensures
            result.input == input,
            result.source_fields@.len() == 0,
    {
        ResolvedRuntimeInput { input, source_fields: Vec::new() }
    }

    /// Lines of the commands of a configuration.
    pub fn from_config(config: StartConfig) -> (result: Self)
        ensures
            result.input@ == InputView::StartCommands(all_started(config@.commands)),
            text::views(result.source_fields@) == config@.source_fields,
    {
        let ghost all = config@.commands;
        let mut commands: Vec<StartCommand> = Vec::new();
        let mut i: usize = 0;
        assert(text::views(commands@) =~= all_started(all).take(0));
        while i < config.commands.len()
            invariant
                i <= config.commands@.len(),
                all == text::views(config.commands@),
                text::views(commands@) == all_started(all).take(i as int),
            decreases config.commands@.len() - i,
        {
            commands.push(copy_named(&config.commands[i]).into_start());
            assert(all_started(all).take(i + 1) =~= all_started(all).take(i as int).push(
                all_started(all)[i as int],
            ));
            i += 1;
        }
        assert(all_started(all).take(i as int) =~= all_started(all));
        ResolvedRuntimeInput {
            input: RuntimeInput::StartCommands(commands),
            source_fields: config.source_fields,
        }
    }
}

fn copy_named(command: &NamedCommand) -> (result: NamedCommand)
    ensures
        result@ == command@,
{
    NamedCommand {
        name: command.name.clone(),
        command: text::copy_strings(&command.command),
        cwd: text::copy_opt(&command.cwd),
    }
}

// ---------------------------------------------------------------------------
// What is printed
// ---------------------------------------------------------------------------

/// A word and names after it.
pub open spec fn named_summary(prefix: Seq<char>, names: Seq<Seq<char>>) -> Seq<char> {
    let joined = split::join(names, ", "@);
    if joined.len() == 0 {
        prefix
    } else {
        prefix + " "@ + joined
    }
}

/// An input in one line.
pub open spec fn input_summary(input: InputView) -> Seq<char> {
    match input {
        InputView::Stdin => "stdin"@,
        InputView::Command(command) => split::join(command, " "@),
        InputView::Commands(commands) => named_summary(
            "run"@,
            Seq::new(commands.len(), |i: int| commands[i].name),
        ),
        InputView::StartCommands(commands) => named_summary(
            "start"@,
            Seq::new(commands.len(), |i: int| commands[i].name),
        ),
    }
}

fn command_names_summary(prefix: &str, names: &Vec<String>) -> (result: String)
    ensures
        result@ == named_summary(prefix@, text::views(names@)),
{
    let joined = join_strings(names, ", ");
    if joined.as_str().is_empty() {
        copy_str(prefix)
    } else {
        concat3(prefix, " ", joined.as_str())
    }
}

/// An input in one line.
pub fn runtime_input_summary(input: &RuntimeInput) -> (result: String)
    ensures
        result@ == input_summary(input@),
{
    match input {
        RuntimeInput::Stdin => copy_str("stdin"),
        RuntimeInput::Command(command) => join_strings(command, " "),
        RuntimeInput::Commands(commands) => {
            let ghost all = Seq::new(commands@.len(), |i: int| commands@[i]@.name);
            let mut names: Vec<String> = Vec::new();
            let mut i: usize = 0;
            assert(text::views(names@) =~= all.take(0));
            while i < commands.len()
                invariant
                    i <= commands@.len(),
                    all == Seq::new(commands@.len(), |i: int| commands@[i]@.name),
                    text::views(names@) == all.take(i as int),
                decreases commands@.len() - i,
            {
                names.push(commands[i].name.clone());
                assert(all.take(i + 1) =~= all.take(i as int).push(all[i as int]));
                i += 1;
            }
            assert(all.take(i as int) =~= all);
            assert(all =~= Seq::new(
                text::views(commands@).len(),
                |i: int| text::views(commands@)[i].name,
            ));
            command_names_summary("run", &names)
        },
        RuntimeInput::StartCommands(commands) => {
            let ghost all = Seq::new(commands@.len(), |i: int| commands@[i]@.name);
            let mut names: Vec<String> = Vec::new();
            let mut i: usize = 0;
            assert(text::views(names@) =~= all.take(0));
            while i < commands.len()
                invariant
                    i <= commands@.len(),
                    all == Seq::new(commands@.len(), |i: int| commands@[i]@.name),
                    text::views(names@) == all.take(i as int),
                decreases commands@.len() - i,
            {
                names.push(commands[i].name.clone());
                assert(all.take(i + 1) =~= all.take(i as int).push(all[i as int]));
                i += 1;
            }
            assert(all.take(i as int) =~= all);
            assert(all =~= Seq::new(
                text::views(commands@).len(),
                |i: int| text::views(commands@)[i].name,
            ));
            command_names_summary("start", &names)
        },
    }
}

/// A time in its largest unit.
pub open spec fn age_text(seconds: nat) -> Seq<char> {
    if seconds < 60 {
        number::decimal(seconds) + "s"@
    } else if seconds < 3600 {
        number::decimal(seconds / 60) + "m"@
    } else if seconds < 86400 {
        number::decimal(seconds / 3600) + "h"@
    } else {
        number::decimal(seconds / 86400) + "d"@
    }
}

/// How long something has been, in its largest unit.
pub fn format_age(started_unix_seconds: u64, now_unix_seconds: u64) -> (result: String)
    ensures
        result@ == age_text(
            if now_unix_seconds > started_unix_seconds {
                (now_unix_seconds - started_unix_seconds) as nat
            } else {
                0
            },
        ),
{
    let seconds = now_unix_seconds.saturating_sub(started_unix_seconds);
    let (amount, unit) = if seconds < 60 {
        (seconds, "s")
    } else if seconds < 3600 {
        (seconds / 60, "m")
    } else if seconds < 86400 {
        (seconds / 3600, "h")
    } else {
        (seconds / 86400, "d")
    };
    concat(decimal_string(amount as u128).as_str(), unit)
}

/// The line of a page in the list of pages.
pub open spec fn page_line(page: PageView, now: u64) -> Seq<char> {
    page.id + "\t"@ + number::decimal(page.pid as nat) + "\t"@ + age_text(
        if now > page.started {
            (now - page.started) as nat
        } else {
            0
        },
    ) + "\t"@ + page.command
}

/// The list of pages.
pub open spec fn pages_text(pages: Seq<PageView>, now: u64) -> Seq<Seq<char>> {
    if pages.len() == 0 {
        seq!["no active loggle pages"@]
    } else {
        seq!["ID\tPID\tAGE\tCOMMAND"@] + Seq::new(pages.len(), |i: int| page_line(pages[i], now))
    }
}

/// The list of pages, line by line.
pub fn pages_table(pages: &VecDeque<ActiveLogPage>, now_unix_seconds: u64) -> (result: Vec<String>)
    ensures
        text::views(result@) == pages_text(text::views(pages@), now_unix_seconds),
{
    let mut lines: Vec<String> = Vec::new();
    let ghost all = text::views(pages@);
    assert(all.len() == pages@.len());
    if pages.len() == 0 {
        lines.push(copy_str("no active loggle pages"));
        assert(text::views(lines@) =~= pages_text(all, now_unix_seconds));
        return lines;
    }
    lines.push(copy_str("ID\tPID\tAGE\tCOMMAND"));
    let ghost whole = pages_text(all, now_unix_seconds);
    let mut i: usize = 0;
    assert(text::views(lines@) =~= whole.take(1));
    while i < pages.len()
        invariant
            i <= pages@.len(),
            all == text::views(pages@),
            all.len() > 0,
            whole == pages_text(all, now_unix_seconds),
            text::views(lines@) == whole.take(i + 1),
        decreases pages@.len() - i,
    {
        let page = &pages[i];
        let pid = decimal_string(page.pid as u128);
        let age = format_age(page.started_unix_seconds, now_unix_seconds);
        let head = concat3(page.id.as_str(), "\t", pid.as_str());
        let head = concat3(head.as_str(), "\t", age.as_str());
        let line = concat3(head.as_str(), "\t", page.command.as_str());
        assert(whole[i + 1] == page_line(all[i as int], now_unix_seconds));
        lines.push(line);
        assert(whole.take(i + 2) =~= whole.take(i + 1).push(whole[i + 1]));
        i += 1;
    }
    assert(whole.take(i + 1) =~= whole);
    lines
}

// ---------------------------------------------------------------------------
// Laws
// ---------------------------------------------------------------------------

/// Every command of a command line that names several has a name and something
/// to run.
pub proof fn law_named_commands_can_be_run(args: Seq<Seq<char>>, i: int)
    requires
        runner_commands(args) is Ok,
        0 <= i < runner_commands(args)->Ok_0.len(),
    ensures
        runner_commands(args)->Ok_0[i].name.len() > 0,
        runner_commands(args)->Ok_0[i].command.len() > 0,
    decreases args.len(),
{
    let rest = args.skip(3);
    let count = next_name(rest);
    lemma_next_name(rest);
    if i > 0 {
        law_named_commands_can_be_run(rest.skip(count), i - 1);
    }
}

/// The next command begins at an argument, or after the last.
pub proof fn lemma_next_name(args: Seq<Seq<char>>)
    ensures
        0 <= next_name(args) <= args.len(),
    decreases args.len(),
{
    if args.len() > 0 && args[0] != "--name"@ {
        lemma_next_name(args.drop_first());
    }
}

} // verus!
