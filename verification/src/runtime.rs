//! Running the viewer: where lines come from, and what keys do.
pub mod input;
pub mod key_laws;
pub mod keys;
pub mod schedule;
pub mod shutdown;
pub mod start_laws;
pub mod start_plan;

use crate::model::SourceConfig;
use crate::page_log::LogPageId;
use crate::text::{self, copy_str};
use vstd::prelude::*;

verus! {

/// How the viewer is run.
#[derive(Debug)]
pub struct RuntimeConfig {
    pub buffer_lines: usize,
    pub color_enabled: bool,
    pub source_config: SourceConfig,
    pub input: RuntimeInput,
    pub record_path: Option<String>,
    pub page_id: Option<LogPageId>,
    pub page_command: String,
    pub page_logging: bool,
}

/// Where lines come from.
#[derive(Debug, PartialEq, Eq)]
pub enum RuntimeInput {
    Stdin,
    Command(Vec<String>),
    Commands(Vec<NamedCommand>),
    StartCommands(Vec<StartCommand>),
}

/// What an input is.
pub enum InputView {
    Stdin,
    Command(Seq<Seq<char>>),
    Commands(Seq<NamedView>),
    StartCommands(Seq<StartView>),
}

impl View for RuntimeInput {
    type V = InputView;

    open spec fn view(&self) -> InputView {
        match self {
            RuntimeInput::Stdin => InputView::Stdin,
            RuntimeInput::Command(command) => InputView::Command(text::views(command@)),
            RuntimeInput::Commands(commands) => InputView::Commands(text::views(commands@)),
            RuntimeInput::StartCommands(commands) => InputView::StartCommands(
                text::views(commands@),
            ),
        }
    }
}

/// A command with a name.
#[derive(Debug, PartialEq, Eq)]
pub struct NamedCommand {
    pub name: String,
    pub command: Vec<String>,
    pub cwd: Option<String>,
}

/// What a named command is.
pub struct NamedView {
    pub name: Seq<char>,
    pub command: Seq<Seq<char>>,
    pub cwd: Option<Seq<char>>,
}

impl View for NamedCommand {
    type V = NamedView;

    open spec fn view(&self) -> NamedView {
        NamedView {
            name: self.name@,
            command: text::views(self.command@),
            cwd: text::opt_view(self.cwd),
        }
    }
}

/// A command that is started with others, some of which it waits for.
#[derive(Debug, PartialEq, Eq)]
pub struct StartCommand {
    pub name: String,
    pub argv: Vec<String>,
    pub cwd: Option<String>,
    pub env: Vec<(String, String)>,
    pub wait_for: Vec<String>,
    pub ready: Option<ReadySpec>,
}

/// What a command that is started with others is.
pub struct StartView {
    pub name: Seq<char>,
    pub argv: Seq<Seq<char>>,
    pub cwd: Option<Seq<char>>,
    pub env: Seq<(Seq<char>, Seq<char>)>,
    pub wait_for: Seq<Seq<char>>,
    pub ready: Option<ReadyView>,
}

impl View for StartCommand {
    type V = StartView;

    open spec fn view(&self) -> StartView {
        StartView {
            name: self.name@,
            argv: text::views(self.argv@),
            cwd: text::opt_view(self.cwd),
            env: text::views(self.env@),
            wait_for: text::views(self.wait_for@),
            ready: text::opt_view(self.ready),
        }
    }
}

/// When a command counts as ready. Times are in milliseconds.
#[derive(Debug, PartialEq, Eq)]
pub enum ReadySpec {
    Line { text: String, timeout: u64 },
    Command { command: Vec<String>, interval: u64, timeout: u64 },
}

/// What makes a command ready.
pub enum ReadyView {
    Line { text: Seq<char>, timeout: u64 },
    Command { command: Seq<Seq<char>>, interval: u64, timeout: u64 },
}

impl View for ReadySpec {
    type V = ReadyView;

    open spec fn view(&self) -> ReadyView {
        match self {
            ReadySpec::Line { text, timeout } => ReadyView::Line { text: text@, timeout: *timeout },
            ReadySpec::Command { command, interval, timeout } => ReadyView::Command {
                command: text::views(command@),
                interval: *interval,
                timeout: *timeout,
            },
        }
    }
}

impl NamedView {
    /// The command as one that waits for nothing and is ready at once.
    pub open spec fn started(self) -> StartView {
        StartView {
            name: self.name,
            argv: self.command,
            cwd: self.cwd,
            env: Seq::empty(),
            wait_for: Seq::empty(),
            ready: None,
        }
    }
}

impl NamedCommand {
    /// The command as one that waits for nothing and is ready at once.
    pub fn into_start(self) -> (result: StartCommand)
        ensures
            result@ == self@.started(),
    {
        let result = StartCommand {
            name: self.name,
            argv: self.command,
            cwd: self.cwd,
            env: Vec::new(),
            wait_for: Vec::new(),
            ready: None,
        };
        assert(result@.env =~= Seq::<(Seq<char>, Seq<char>)>::empty());
        assert(result@.wait_for =~= Seq::<Seq<char>>::empty());
        result
    }
}

/// What keeps the viewer from running.
#[derive(Debug, PartialEq, Eq)]
pub enum RuntimeError {
    MissingInput,
    Io(String),
}

/// What is said where there is no input.
pub const MISSING_INPUT: &'static str = "loggle reads newline-delimited logs from stdin or runs commands.\n\nUsage:\n  docker compose up 2>&1 | loggle\n  loggle -- docker compose up\n  loggle pages\n  loggle log -i 1 -n 5\n  loggle log -i 1 -n 5 --service api --property tenantId=tenant-1\n  loggle run --name api -- pnpm start --name web -- pnpm dev\n  loggle start [name]";

impl RuntimeError {
    /// The error in words.
    pub fn message(&self) -> (result: String)
        ensures
            result@ == match self {
                RuntimeError::MissingInput => MISSING_INPUT@,
                RuntimeError::Io(reason) => reason@,
            },
    {
        match self {
            RuntimeError::MissingInput => copy_str(MISSING_INPUT),
            RuntimeError::Io(reason) => reason.clone(),
        }
    }
}

} // verus!
