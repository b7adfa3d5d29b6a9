//! Starting commands, each once those that it waits for are ready. Times are in
//! milliseconds.
use crate::runtime::start_plan::{self, StartPlan};
use crate::runtime::{ReadySpec, ReadyView, StartCommand, StartView};
use crate::text::number;
use crate::text::split::{self, join_strings};
use crate::text::{
    self, chars_of, chars_trim, chars_trim_end, concat3, copy_str, copy_strings, push_chars,
    push_str, string_of,
};
use std::collections::VecDeque;
use vstd::prelude::*;

verus! {

broadcast use text::lemma_views_push;

// ---------------------------------------------------------------------------
// What probes say
// ---------------------------------------------------------------------------

/// How many outputs of probes are kept.
pub const MAX_PROBE_OUTPUTS: usize = 5;

/// What `String::from_utf8_lossy` reads from bytes.
pub uninterp spec fn lossy_text(bytes: Seq<u8>) -> Seq<char>;

/// `String::from_utf8_lossy`: the text of bytes, with replacement characters in
/// place of what is not UTF-8. What the text is depends on the bytes alone.
#[verifier::external_body]
fn read_lossy(bytes: &Vec<u8>) -> (result: String)
    ensures
        result@ == lossy_text(bytes@),
{
    String::from_utf8_lossy(bytes).into_owned()
}

/// What came of asking whether a command is ready.
#[derive(Debug, PartialEq, Eq)]
pub struct ProbeRun {
    pub success: bool,
    pub timed_out: bool,
    pub stdout: Vec<u8>,
    pub stderr: Vec<u8>,
}

/// A part of the output of a probe, under its name.
pub open spec fn output_part(name: Seq<char>, output: Seq<char>) -> Seq<char> {
    if text::trim(output).len() == 0 {
        Seq::empty()
    } else {
        name + text::trim_end(output)
    }
}

/// The output of a probe: what it has of either kind.
pub open spec fn output_text(stdout: Seq<char>, stderr: Seq<char>) -> Seq<char> {
    let first = output_part("stdout:\n"@, stdout);
    let second = output_part("stderr:\n"@, stderr);
    if first.len() > 0 && second.len() > 0 {
        first + "\n"@ + second
    } else {
        first + second
    }
}

fn output_is_blank(output: &str) -> (result: bool)
    ensures
        result == (text::trim(output@).len() == 0),
{
    let chars = chars_of(output);
    chars_trim(chars.as_slice()).len() == 0
}

fn push_output(out: &mut Vec<char>, name: &str, output: &str)
    ensures
        final(out)@ == old(out)@ + name@ + text::trim_end(output@),
{
    push_str(out, name);
    let chars = chars_of(output);
    push_chars(out, chars_trim_end(chars.as_slice()));
}

/// The output of a probe in one text.
pub fn summarize_output(stdout: &str, stderr: &str) -> (result: String)
    ensures
        result@ == output_text(stdout@, stderr@),
{
    proof {
        reveal_strlit("stdout:\n");
        reveal_strlit("stderr:\n");
    }
    let mut out: Vec<char> = Vec::new();
    if !output_is_blank(stdout) {
        push_output(&mut out, "stdout:\n", stdout);
        assert(out@ =~= output_part("stdout:\n"@, stdout@));
    }
    let ghost first = out@;
    assert(first =~= output_part("stdout:\n"@, stdout@));
    if !output_is_blank(stderr) {
        if out.len() > 0 {
            push_str(&mut out, "\n");
        }
        push_output(&mut out, "stderr:\n", stderr);
    }
    assert(out@ =~= output_text(stdout@, stderr@));
    string_of(out.as_slice())
}

impl ProbeRun {
    /// The output of a probe, as text.
    pub fn output_summary(&self) -> (result: String)
        ensures
            result@ == output_text(lossy_text(self.stdout@), lossy_text(self.stderr@)),
    {
        summarize_output(read_lossy(&self.stdout).as_str(), read_lossy(&self.stderr).as_str())
    }
}

/// The last outputs of probes.
#[derive(Debug)]
pub struct RecentProbeOutput {
    pub entries: VecDeque<String>,
}

impl View for RecentProbeOutput {
    type V = Seq<Seq<char>>;

    open spec fn view(&self) -> Seq<Seq<char>> {
        text::views(self.entries@)
    }
}

/// The last outputs with another one.
pub open spec fn noted(outputs: Seq<Seq<char>>, output: Seq<char>) -> Seq<Seq<char>> {
    if output.len() == 0 {
        outputs
    } else if outputs.len() < MAX_PROBE_OUTPUTS {
        outputs.push(output)
    } else {
        outputs.push(output).skip(outputs.len() + 1 - MAX_PROBE_OUTPUTS)
    }
}

impl RecentProbeOutput {
    /// No output yet.
    pub fn new() -> (result: Self)
        ensures
            result@ == Seq::<Seq<char>>::empty(),
    {
        let result = RecentProbeOutput { entries: VecDeque::new() };
        assert(result@ =~= Seq::<Seq<char>>::empty());
        result
    }

    /// Keeps an output, unless it is empty.
    pub fn push(&mut self, output: String)
        ensures
            final(self)@ == noted(old(self)@, output@),
    {
        if output.as_str().is_empty() {
            return ;
        }
        self.entries.push_back(output);
        let ghost all = self@;
        assert(all.skip(0) =~= all);
        while self.entries.len() > MAX_PROBE_OUTPUTS
            invariant
                self.entries@.len() <= all.len(),
                self@ == all.skip(all.len() - self.entries@.len()),
                self.entries@.len() >= MAX_PROBE_OUTPUTS || self.entries@.len() == all.len(),
            decreases self.entries@.len(),
        {
            let ghost before = self.entries@;
            let _ = self.entries.pop_front();
            assert(self@ =~= text::views(before).skip(1));
            assert(all.skip(all.len() - before.len()).skip(1) =~= all.skip(
                all.len() - self.entries@.len(),
            ));
        }
    }

    /// The outputs in one text.
    pub fn summary(&self) -> (result: String)
        ensures
            result@ == split::join(self@, "\n---\n"@),
    {
        let mut parts: Vec<String> = Vec::new();
        let mut i: usize = 0;
        let ghost all = self@;
        assert(text::views(parts@) =~= all.take(0));
        while i < self.entries.len()
            invariant
                i <= self.entries@.len(),
                all == text::views(self.entries@),
                text::views(parts@) == all.take(i as int),
            decreases self.entries@.len() - i,
        {
            parts.push(self.entries[i].clone());
            assert(all.take(i + 1) =~= all.take(i as int).push(all[i as int]));
            i += 1;
        }
        assert(all.take(i as int) =~= all);
        join_strings(&parts, "\n---\n")
    }
}

// ---------------------------------------------------------------------------
// Waiting for a command
// ---------------------------------------------------------------------------

/// How a command is found to be ready.
#[derive(Debug)]
pub enum ReadyKind {
    Line,
    Command { command: Vec<String>, interval: u64, next_probe: u128 },
}

/// Waiting for a command to be ready.
#[derive(Debug)]
pub struct CommandReadyState {
    pub kind: ReadyKind,
    pub deadline: u128,
    pub recent_output: RecentProbeOutput,
}

/// What the waiting for a command is.
pub struct WaitView {
    pub probe: Option<ProbeView>,
    pub deadline: int,
    pub outputs: Seq<Seq<char>>,
}

/// What is asked, and when next.
pub struct ProbeView {
    pub command: Seq<Seq<char>>,
    pub interval: int,
    pub next: int,
}

impl View for CommandReadyState {
    type V = WaitView;

    open spec fn view(&self) -> WaitView {
        WaitView {
            probe: match self.kind {
                ReadyKind::Line => None,
                ReadyKind::Command { command, interval, next_probe } => Some(
                    ProbeView {
                        command: text::views(command@),
                        interval: interval as int,
                        next: next_probe as int,
                    },
                ),
            },
            deadline: self.deadline as int,
            outputs: self.recent_output@,
        }
    }
}

/// What comes of a probe.
pub enum ProbeOutcomeView {
    Ready,
    NotReady,
    TimedOut(Seq<char>),
}

/// What comes of a probe.
#[derive(Debug, PartialEq, Eq)]
pub enum ProbeOutcome {
    Ready,
    NotReady,
    TimedOut(String),
}

impl View for ProbeOutcome {
    type V = ProbeOutcomeView;

    open spec fn view(&self) -> ProbeOutcomeView {
        match self {
            ProbeOutcome::Ready => ProbeOutcomeView::Ready,
            ProbeOutcome::NotReady => ProbeOutcomeView::NotReady,
            ProbeOutcome::TimedOut(message) => ProbeOutcomeView::TimedOut(message@),
        }
    }
}

/// A message with the outputs of probes under it.
pub open spec fn with_outputs(message: Seq<char>, outputs: Seq<Seq<char>>) -> Seq<char> {
    let output = split::join(outputs, "\n---\n"@);
    if output.len() == 0 {
        message
    } else {
        message + "\nrecent readiness probe output:\n"@ + output
    }
}

impl WaitView {
    /// Whether it is time to ask.
    pub open spec fn is_due(self, now: int) -> bool {
        match self.probe {
            Some(probe) => now >= probe.next,
            None => false,
        }
    }

    /// What is said of a command that was not ready in time.
    pub open spec fn timeout_text(self, name: Seq<char>) -> Seq<char> {
        with_outputs("command '"@ + name + "' readiness timed out"@, self.outputs)
    }

    /// The waiting after a probe with some output.
    pub open spec fn probed(
        self,
        success: bool,
        timed_out: bool,
        output: Seq<char>,
        now: int,
    ) -> (WaitView, ProbeOutcomeView) {
        let told = WaitView { outputs: noted(self.outputs, output), ..self };
        match self.probe {
            None => (self, ProbeOutcomeView::NotReady),
            Some(probe) => if success {
                (told, ProbeOutcomeView::Ready)
            } else if timed_out {
                (
                    told,
                    ProbeOutcomeView::TimedOut(
                        with_outputs("readiness probe timed out"@, told.outputs),
                    ),
                )
            } else {
                (
                    WaitView {
                        probe: Some(ProbeView { next: now + probe.interval, ..probe }),
                        ..told
                    },
                    ProbeOutcomeView::NotReady,
                )
            },
        }
    }
}

impl CommandReadyState {
    /// Waits for a line until some time.
    pub fn line_timeout(deadline: u128) -> (result: Self)
        ensures
            result@ == (WaitView {
                probe: None,
                deadline: deadline as int,
                outputs: Seq::empty(),
            }),
    {
        CommandReadyState {
            kind: ReadyKind::Line,
            deadline,
            recent_output: RecentProbeOutput::new(),
        }
    }

    /// Asks by a command, again and again, until some time.
    pub fn command(command: Vec<String>, interval: u64, next_probe: u128, deadline: u128) -> (result:
        Self)
        ensures
            result@ == (WaitView {
                probe: Some(
                    ProbeView {
                        command: text::views(command@),
                        interval: interval as int,
                        next: next_probe as int,
                    },
                ),
                deadline: deadline as int,
                outputs: Seq::empty(),
            }),
    {
        CommandReadyState {
            kind: ReadyKind::Command { command, interval, next_probe },
            deadline,
            recent_output: RecentProbeOutput::new(),
        }
    }

    /// Whether it is time to ask.
    pub fn is_command_probe_due(&self, now: u64) -> (result: bool)
        ensures
            result == self@.is_due(now as int),
    {
        match &self.kind {
            ReadyKind::Line => false,
            ReadyKind::Command { next_probe, .. } => now as u128 >= *next_probe,
        }
    }

    fn message_with_outputs(&self, message: &str) -> (result: String)
        ensures
            result@ == with_outputs(message@, self@.outputs),
    {
        let output = self.recent_output.summary();
        if output.as_str().is_empty() {
            copy_str(message)
        } else {
            concat3(message, "\nrecent readiness probe output:\n", output.as_str())
        }
    }

    /// What is said of a command that was not ready in time.
    pub fn timeout_error(&self, command_name: &str) -> (result: String)
        ensures
            result@ == self@.timeout_text(command_name@),
    {
        let message = concat3("command '", command_name, "' readiness timed out");
        self.message_with_outputs(message.as_str())
    }

    /// Takes what came of a probe, with its output.
    pub fn note_probe(&mut self, success: bool, timed_out: bool, output: String, now: u64) -> (result:
        ProbeOutcome)
        ensures
            (final(self)@, result@) == old(self)@.probed(
                success,
                timed_out,
                output@,
                now as int,
            ),
    {
        let (command, interval) = match &self.kind {
            ReadyKind::Line => {
                return ProbeOutcome::NotReady;
            },
            ReadyKind::Command { command, interval, .. } => (copy_strings(command), *interval),
        };
        self.recent_output.push(output);
        if success {
            return ProbeOutcome::Ready;
        }
        if timed_out {
            return ProbeOutcome::TimedOut(
                self.message_with_outputs("readiness probe timed out"),
            );
        }
        self.kind = ReadyKind::Command {
            command,
            interval,
            next_probe: now as u128 + interval as u128,
        };
        ProbeOutcome::NotReady
    }

    /// Takes what came of a probe.
    pub fn run_probe(&mut self, probe: &ProbeRun, now: u64) -> (result: ProbeOutcome)
        ensures
            (final(self)@, result@) == old(self)@.probed(
                probe.success,
                probe.timed_out,
                output_text(lossy_text(probe.stdout@), lossy_text(probe.stderr@)),
                now as int,
            ),
    {
        self.note_probe(probe.success, probe.timed_out, probe.output_summary(), now)
    }
}

// ---------------------------------------------------------------------------
// Starting commands
// ---------------------------------------------------------------------------

/// What is done about a probe that was started.
#[derive(Debug, Clone, Copy, PartialEq, Eq)]
pub enum ProbeStep {
    Exited(bool),
    TimedOut,
    Wait,
}

/// How far a command has come.
#[derive(Debug, Clone, Copy, PartialEq, Eq, Structural)]
pub enum StartState {
    Pending,
    Started,
    Ready,
}

/// What is to be done about a command that is waited for.
#[derive(Debug, PartialEq, Eq)]
pub enum ReadinessStep {
    /// Nothing: it is ready.
    Ready,
    /// It is to be asked whether it is ready.
    Probe,
    /// The start has failed.
    Failed(String),
    /// It has more time, unless it has ended.
    Wait,
}

/// What a step is.
pub enum ReadinessView {
    Ready,
    Probe,
    Failed(Seq<char>),
    Wait,
}

impl View for ReadinessStep {
    type V = ReadinessView;

    open spec fn view(&self) -> ReadinessView {
        match self {
            ReadinessStep::Ready => ReadinessView::Ready,
            ReadinessStep::Probe => ReadinessView::Probe,
            ReadinessStep::Failed(message) => ReadinessView::Failed(message@),
            ReadinessStep::Wait => ReadinessView::Wait,
        }
    }
}

/// Starts the commands of a plan.
#[derive(Debug)]
pub struct StartScheduler<'a> {
    plan: StartPlan<'a>,
    states: Vec<StartState>,
    command_ready: Vec<Option<CommandReadyState>>,
}

/// How far the start of commands has come.
pub struct ScheduleView {
    pub commands: Seq<StartView>,
    pub states: Seq<StartState>,
    pub waiting: Seq<Option<WaitView>>,
}

/// The views of what is waited for.
pub open spec fn wait_views(waiting: Seq<Option<CommandReadyState>>) -> Seq<Option<WaitView>> {
    Seq::new(waiting.len(), |i: int| text::opt_view(waiting[i]))
}

impl<'a> View for StartScheduler<'a> {
    type V = ScheduleView;

    closed spec fn view(&self) -> ScheduleView {
        ScheduleView {
            commands: self.plan.commands(),
            states: self.states@,
            waiting: wait_views(self.command_ready@),
        }
    }
}

/// The waiting that begins when a command is started.
pub open spec fn wait_of(ready: ReadyView, now: int) -> WaitView {
    match ready {
        ReadyView::Line { text, timeout } => WaitView {
            probe: None,
            deadline: now + timeout,
            outputs: Seq::empty(),
        },
        ReadyView::Command { command, interval, timeout } => WaitView {
            probe: Some(ProbeView { command, interval: interval as int, next: now }),
            deadline: now + timeout,
            outputs: Seq::empty(),
        },
    }
}

impl ScheduleView {
    /// Before the first command is started.
    pub open spec fn start(commands: Seq<StartView>) -> ScheduleView {
        ScheduleView {
            commands,
            states: Seq::new(commands.len(), |i: int| StartState::Pending),
            waiting: Seq::new(commands.len(), |i: int| None),
        }
    }

    /// Whether every command is ready.
    pub open spec fn all_ready(self) -> bool {
        forall|i: int| 0 <= i < self.states.len() ==> #[trigger] self.states[i] == StartState::Ready
    }

    /// Whether all that a command waits for is ready.
    pub open spec fn unblocked(self, index: int) -> bool {
        forall|j: int|
            0 <= j < start_plan::waits(self.commands, index).len()
                ==> self.states[#[trigger] start_plan::waits(self.commands, index)[j]]
                == StartState::Ready
    }

    /// The first command, from an index on, that can be started.
    pub open spec fn next_from(self, index: int) -> int
        decreases self.states.len() - index,
    {
        if index >= self.states.len() {
            self.states.len() as int
        } else if self.states[index] == StartState::Pending && self.unblocked(index) {
            index
        } else {
            self.next_from(index + 1)
        }
    }

    /// A command has been started: it is ready at once, or waited for.
    pub open spec fn spawned(self, index: int, now: int) -> ScheduleView {
        match self.commands[index].ready {
            None => ScheduleView {
                states: self.states.update(index, StartState::Ready),
                ..self
            },
            Some(ready) => ScheduleView {
                states: self.states.update(index, StartState::Started),
                waiting: self.waiting.update(index, Some(wait_of(ready, now))),
                ..self
            },
        }
    }

    /// A command has been found to be ready.
    pub open spec fn ready(self, index: int) -> ScheduleView {
        ScheduleView { states: self.states.update(index, StartState::Ready), ..self }
    }

    /// What is done about a command that is not known to be ready.
    pub open spec fn waited(self, index: int, now: int) -> ReadinessView {
        match self.waiting[index] {
            Some(wait) => if now >= wait.deadline {
                ReadinessView::Failed(wait.timeout_text(self.commands[index].name))
            } else {
                ReadinessView::Wait
            },
            None => ReadinessView::Wait,
        }
    }

    /// A command that is waited for is looked at: the line that shows it to be
    /// ready has been read or not.
    pub open spec fn checked(self, index: int, line_ready: bool, now: int) -> (
        ScheduleView,
        ReadinessView,
    ) {
        if line_ready {
            (self.ready(index), ReadinessView::Ready)
        } else {
            match self.waiting[index] {
                Some(wait) => if wait.is_due(now) {
                    (self, ReadinessView::Probe)
                } else {
                    (self, self.waited(index, now))
                },
                None => (self, ReadinessView::Wait),
            }
        }
    }

    /// A command has been asked whether it is ready.
    pub open spec fn asked(
        self,
        index: int,
        success: bool,
        timed_out: bool,
        output: Seq<char>,
        now: int,
    ) -> (ScheduleView, ReadinessView) {
        match self.waiting[index] {
            Some(wait) => {
                let (after, outcome) = wait.probed(success, timed_out, output, now);
                let told = ScheduleView { waiting: self.waiting.update(index, Some(after)), ..self };
                match outcome {
                    ProbeOutcomeView::Ready => (told.ready(index), ReadinessView::Ready),
                    ProbeOutcomeView::TimedOut(message) => (told, ReadinessView::Failed(message)),
                    ProbeOutcomeView::NotReady => (told, told.waited(index, now)),
                }
            },
            None => (self, ReadinessView::Wait),
        }
    }

    /// Commands are started only once all that they wait for is ready.
    pub open spec fn ordered(self) -> bool {
        &&& self.states.len() == self.commands.len()
        &&& self.waiting.len() == self.commands.len()
        &&& start_plan::is_graph(start_plan::graph_of(self.commands))
        &&& forall|i: int|
            0 <= i < self.states.len() && #[trigger] self.states[i] != StartState::Pending
                ==> self.unblocked(i)
    }
}

impl<'a> StartScheduler<'a> {
    /// What holds between steps.
    pub closed spec fn wf(&self) -> bool {
        self.plan.wf() && self@.ordered()
    }

    /// A scheduler for a plan.
    pub fn new(plan: StartPlan<'a>) -> (result: Self)
        requires
            plan.wf(),
        ensures
            result@ == ScheduleView::start(plan.commands()),
            result.wf(),
    {
        let mut states: Vec<StartState> = Vec::new();
        let mut command_ready: Vec<Option<CommandReadyState>> = Vec::new();
        let mut i: usize = 0;
        while i < plan.len()
            invariant
                i <= plan.commands().len(),
                states@.len() == i,
                command_ready@.len() == i,
                forall|j: int| 0 <= j < i ==> (#[trigger] states@[j]) == StartState::Pending,
                forall|j: int| 0 <= j < i ==> (#[trigger] command_ready@[j]) is None,
            decreases plan.commands().len() - i,
        {
            states.push(StartState::Pending);
            command_ready.push(None);
            i += 1;
        }
        proof {
            plan.lemma_graph();
        }
        let result = StartScheduler { plan, states, command_ready };
        assert(result@.states =~= ScheduleView::start(plan.commands()).states);
        assert(result@.waiting =~= ScheduleView::start(plan.commands()).waiting);
        result
    }

    /// Whether every command is ready.
    pub fn all_ready(&self) -> (result: bool)
        ensures
            result == self@.all_ready(),
    {
        let mut i: usize = 0;
        while i < self.states.len()
            invariant
                i <= self.states@.len(),
                forall|j: int| 0 <= j < i ==> (#[trigger] self.states@[j]) == StartState::Ready,
            decreases self.states@.len() - i,
        {
            if self.states[i] != StartState::Ready {
                assert(self@.states[i as int] != StartState::Ready);
                return false;
            }
            i += 1;
        }
        true
    }

    fn dependencies_ready(&self, index: usize) -> (result: bool)
        requires
            self.wf(),
            index < self@.commands.len(),
        ensures
            result == self@.unblocked(index as int),
    {
        let dependencies = self.plan.dependency_indexes(index);
        let ghost waits = start_plan::waits(self@.commands, index as int);
        assert(start_plan::as_ints(dependencies@) == waits);
        let mut i: usize = 0;
        while i < dependencies.len()
            invariant
                i <= dependencies@.len(),
                self.wf(),
                index < self@.commands.len(),
                waits == start_plan::waits(self@.commands, index as int),
                start_plan::as_ints(dependencies@) == waits,
                forall|j: int|
                    0 <= j < dependencies@.len() ==> (#[trigger] dependencies@[j])
                        < self@.commands.len(),
                forall|j: int|
                    0 <= j < i ==> self.states@[#[trigger] waits[j]] == StartState::Ready,
            decreases dependencies@.len() - i,
        {
            assert(waits[i as int] == dependencies@[i as int]);
            if self.states[dependencies[i]] != StartState::Ready {
                assert(self@.states[waits[i as int]] != StartState::Ready);
                return false;
            }
            i += 1;
        }
        assert(dependencies@.len() == waits.len());
        true
    }

    /// The first command, from an index on, that can be started.
    pub fn next_unblocked(&self, from: usize) -> (result: Option<usize>)
        requires
            self.wf(),
        ensures
            match result {
                Some(index) => index == self@.next_from(from as int) && from <= index
                    < self@.commands.len() && self@.states[index as int] == StartState::Pending
                    && self@.unblocked(index as int),
                None => self@.next_from(from as int) == self@.states.len(),
            },
    {
        let mut i: usize = from;
        while i < self.states.len()
            invariant
                from <= i,
                self.wf(),
                self@.next_from(from as int) == self@.next_from(i as int),
            decreases self.states@.len() - i,
        {
            if self.states[i] == StartState::Pending && self.dependencies_ready(i) {
                return Some(i);
            }
            i += 1;
        }
        None
    }

    /// A command of the plan.
    pub fn command(&self, index: usize) -> (result: &StartCommand)
        requires
            index < self@.commands.len(),
        ensures
            result@ == self@.commands[index as int],
    {
        self.plan.command(index)
    }

    /// Whether a command has been started and is waited for.
    pub fn is_started(&self, index: usize) -> (result: bool)
        requires
            index < self@.states.len(),
        ensures
            result == (self@.states[index as int] == StartState::Started),
    {
        self.states[index] == StartState::Started
    }

    /// How many commands there are.
    pub fn len(&self) -> (result: usize)
        ensures
            result == self@.commands.len(),
    {
        self.plan.len()
    }

    /// Takes note that a command has been started.
    pub fn spawn_command(&mut self, index: usize, now: u64)
        requires
            old(self).wf(),
            index < old(self)@.commands.len(),
            old(self)@.states[index as int] == StartState::Pending,
            old(self)@.unblocked(index as int),
        ensures
            final(self)@ == old(self)@.spawned(index as int, now as int),
            final(self).wf(),
    {
        let ghost before = self@;
        let ready = match &self.plan.command(index).ready {
            None => None,
            Some(ReadySpec::Line { timeout, .. }) => Some(
                CommandReadyState::line_timeout(now as u128 + *timeout as u128),
            ),
            Some(ReadySpec::Command { command, interval, timeout }) => Some(
                CommandReadyState::command(
                    copy_strings(command),
                    *interval,
                    now as u128,
                    now as u128 + *timeout as u128,
                ),
            ),
        };
        match ready {
            None => {
                self.states[index] = StartState::Ready;
            },
            Some(ready) => {
                self.states[index] = StartState::Started;
                self.command_ready[index] = Some(ready);
                assert(wait_views(self.command_ready@) =~= before.waiting.update(
                    index as int,
                    Some(ready@),
                ));
            },
        }
        proof {
            lemma_still_ordered(before, self@, index as int);
        }
    }

    /// Takes note that a command that is waited for is ready.
    pub fn mark_ready(&mut self, index: usize)
        requires
            old(self).wf(),
            index < old(self)@.commands.len(),
            old(self)@.states[index as int] == StartState::Started,
        ensures
            final(self)@ == old(self)@.ready(index as int),
            final(self).wf(),
    {
        let ghost before = self@;
        self.states[index] = StartState::Ready;
        proof {
            lemma_still_ordered(before, self@, index as int);
        }
    }

    /// Whether it is time to ask whether a command is ready.
    pub fn is_probe_due(&self, index: usize, now: u64) -> (result: bool)
        requires
            self.wf(),
            index < self@.commands.len(),
        ensures
            result == match self@.waiting[index as int] {
                Some(wait) => wait.is_due(now as int),
                None => false,
            },
    {
        assert(self@.waiting[index as int] == text::opt_view(self.command_ready@[index as int]));
        assert(self@.waiting.len() == self.command_ready@.len());
        match &self.command_ready[index] {
            Some(ready) => ready.is_command_probe_due(now),
            None => false,
        }
    }

    /// What is said of a command that is not ready although its time is up.
    pub fn timeout_message(&self, index: usize, now: u64) -> (result: Option<String>)
        requires
            self.wf(),
            index < self@.commands.len(),
        ensures
            text::opt_view(result) == match self@.waiting[index as int] {
                Some(wait) => if now >= wait.deadline {
                    Some(wait.timeout_text(self@.commands[index as int].name))
                } else {
                    None
                },
                None => None,
            },
    {
        assert(self@.waiting[index as int] == text::opt_view(self.command_ready@[index as int]));
        assert(self@.waiting.len() == self.command_ready@.len());
        match &self.command_ready[index] {
            Some(ready) => if now as u128 >= ready.deadline {
                Some(ready.timeout_error(self.plan.command(index).name.as_str()))
            } else {
                None
            },
            None => None,
        }
    }

    /// What is done about a probe of a command that is waited for: it has exited,
    /// its time is up, or it is waited for. One that has exited is not late.
    pub fn probe_step(&self, index: usize, exited: Option<bool>, now: u64) -> (result: ProbeStep)
        requires
            self.wf(),
            index < self@.commands.len(),
            self@.waiting[index as int] is Some,
        ensures
            result == match exited {
                Some(success) => ProbeStep::Exited(success),
                None => if now >= self@.waiting[index as int]->0.deadline {
                    ProbeStep::TimedOut
                } else {
                    ProbeStep::Wait
                },
            },
    {
        assert(self@.waiting[index as int] == text::opt_view(self.command_ready@[index as int]));
        assert(self@.waiting.len() == self.command_ready@.len());
        match (exited, &self.command_ready[index]) {
            (Some(success), _) => ProbeStep::Exited(success),
            (None, Some(ready)) if now as u128 >= ready.deadline => ProbeStep::TimedOut,
            (None, _) => ProbeStep::Wait,
        }
    }

    /// Takes what came of asking whether a command is ready.
    pub fn probe(&mut self, index: usize, probe: &ProbeRun, now: u64) -> (result: ProbeOutcome)
        requires
            old(self).wf(),
            index < old(self)@.commands.len(),
            old(self)@.states[index as int] == StartState::Started,
        ensures
            final(self).wf(),
            match old(self)@.waiting[index as int] {
                Some(wait) => {
                    let (after, outcome) = wait.probed(
                        probe.success,
                        probe.timed_out,
                        output_text(lossy_text(probe.stdout@), lossy_text(probe.stderr@)),
                        now as int,
                    );
                    let told = ScheduleView {
                        waiting: old(self)@.waiting.update(index as int, Some(after)),
                        ..old(self)@
                    };
                    &&& result@ == outcome
                    &&& final(self)@ == if outcome is Ready {
                        told.ready(index as int)
                    } else {
                        told
                    }
                },
                None => result@ is NotReady && final(self)@ == old(self)@,
            },
    {
        let ghost before = self@;
        assert(self@.waiting[index as int] == text::opt_view(self.command_ready@[index as int]));
        assert(self@.waiting.len() == self.command_ready@.len());
        let ghost waits = self.command_ready@;
        let mut slot: Option<CommandReadyState> = None;
        std::mem::swap(&mut slot, &mut self.command_ready[index]);
        let outcome = match slot {
            Some(mut ready) => {
                let outcome = ready.run_probe(probe, now);
                slot = Some(ready);
                outcome
            },
            None => {
                slot = None;
                ProbeOutcome::NotReady
            },
        };
        let ghost left = slot;
        std::mem::swap(&mut slot, &mut self.command_ready[index]);
        assert(self.command_ready@ =~= waits.update(index as int, left));
        assert(wait_views(self.command_ready@) =~= before.waiting.update(
            index as int,
            text::opt_view(left),
        ));
        let ghost told = self@;
        assert(told.waiting =~= before.waiting.update(index as int, text::opt_view(left)));
        proof {
            assert(told.states =~= before.states.update(index as int, told.states[index as int]));
            lemma_still_ordered(before, told, index as int);
            if before.waiting[index as int] is None {
                assert(told.waiting =~= before.waiting);
            }
        }
        match &outcome {
            ProbeOutcome::Ready => {
                self.states[index] = StartState::Ready;
                proof {
                    lemma_still_ordered(before, self@, index as int);
                }
            },
            _ => {},
        }
        outcome
    }

    fn wait_step(&self, index: usize, now: u64) -> (result: ReadinessStep)
        requires
            self.wf(),
            index < self@.commands.len(),
        ensures
            result@ == self@.waited(index as int, now as int),
    {
        match self.timeout_message(index, now) {
            Some(message) => ReadinessStep::Failed(message),
            None => ReadinessStep::Wait,
        }
    }

    /// Looks at a command that is waited for.
    pub fn check_readiness(&mut self, index: usize, line_ready: bool, now: u64) -> (result:
        ReadinessStep)
        requires
            old(self).wf(),
            index < old(self)@.commands.len(),
            old(self)@.states[index as int] == StartState::Started,
        ensures
            final(self).wf(),
            (final(self)@, result@) == old(self)@.checked(index as int, line_ready, now as int),
    {
        if line_ready {
            self.mark_ready(index);
            ReadinessStep::Ready
        } else if self.is_probe_due(index, now) {
            ReadinessStep::Probe
        } else {
            self.wait_step(index, now)
        }
    }

    /// Takes what came of asking whether a command is ready, and says what is
    /// done then.
    pub fn check_probe(&mut self, index: usize, probe: &ProbeRun, now: u64) -> (result:
        ReadinessStep)
        requires
            old(self).wf(),
            index < old(self)@.commands.len(),
            old(self)@.states[index as int] == StartState::Started,
        ensures
            final(self).wf(),
            (final(self)@, result@) == old(self)@.asked(
                index as int,
                probe.success,
                probe.timed_out,
                output_text(lossy_text(probe.stdout@), lossy_text(probe.stderr@)),
                now as int,
            ),
    {
        match self.probe(index, probe, now) {
            ProbeOutcome::Ready => ReadinessStep::Ready,
            ProbeOutcome::TimedOut(message) => ReadinessStep::Failed(message),
            ProbeOutcome::NotReady => self.wait_step(index, now),
        }
    }
}

/// What is said of a command that ended before it was ready.
pub fn exit_message(name: &str, code: Option<i32>) -> (result: String)
    ensures
        result@ == "command '"@ + name@ + "' exited before readiness"@ + match code {
            Some(code) => " with status "@ + number::signed(code as int),
            None => Seq::empty(),
        },
{
    let head = concat3("command '", name, "' exited before readiness");
    match code {
        Some(code) => {
            let number = number::signed_string(code);
            concat3(head.as_str(), " with status ", number.as_str())
        },
        None => {
            proof {
                assert(head@ + Seq::<char>::empty() =~= head@);
            }
            head
        },
    }
}

proof fn lemma_still_ordered(before: ScheduleView, after: ScheduleView, index: int)
    requires
        before.ordered(),
        0 <= index < before.states.len(),
        before.unblocked(index) || before.states[index] != StartState::Pending,
        after.commands == before.commands,
        after.waiting.len() == before.waiting.len(),
        after.states == before.states.update(index, after.states[index]),
        before.states[index] == StartState::Ready ==> after.states[index] == StartState::Ready,
    ensures
        after.ordered(),
{
    let graph = start_plan::graph_of(before.commands);
    assert forall|i: int|
        0 <= i < after.states.len() && #[trigger] after.states[i]
            != StartState::Pending implies after.unblocked(i) by {
        assert(before.unblocked(i)) by {
            if i != index {
                assert(before.states[i] == after.states[i]);
            } else {
                assert(before.states[i] != StartState::Pending || before.unblocked(i));
            }
        }
        let waits = start_plan::waits(before.commands, i);
        assert forall|j: int| 0 <= j < waits.len() implies after.states[#[trigger] waits[j]]
            == StartState::Ready by {
            assert(before.states[waits[j]] == StartState::Ready);
            assert(graph[i][j] == waits[j]);
        }
    }
}

// ---------------------------------------------------------------------------
// Laws
// ---------------------------------------------------------------------------

/// Between steps, commands have been started only once all that they wait for
/// was ready.
pub proof fn law_commands_start_in_order(scheduler: &StartScheduler)
    requires
        scheduler.wf(),
    ensures
        scheduler@.ordered(),
{
}

/// A command that is ready stays ready, whatever is done next.
pub proof fn law_ready_stays_ready(schedule: ScheduleView, index: int, other: int, now: int)
    requires
        0 <= other < schedule.states.len(),
        0 <= index < schedule.states.len(),
        schedule.states[index] == StartState::Ready,
        schedule.states[other] == StartState::Pending,
    ensures
        schedule.spawned(other, now).states[index] == StartState::Ready,
        schedule.ready(other).states[index] == StartState::Ready,
{
}

/// While commands are left and none is waited for, one of them can be started:
/// the start of a plan never comes to a stand.
pub proof fn law_start_goes_on(schedule: ScheduleView)
    requires
        schedule.ordered(),
        start_plan::plan_error(schedule.commands) is None,
        !schedule.all_ready(),
        forall|i: int|
            0 <= i < schedule.states.len() ==> #[trigger] schedule.states[i] != StartState::Started,
    ensures
        schedule.next_from(0) < schedule.states.len(),
{
    let ready = Seq::new(
        schedule.states.len(),
        |i: int| schedule.states[i] == StartState::Ready,
    );
    let k = choose|k: int|
        0 <= k < schedule.states.len() && #[trigger] schedule.states[k] != StartState::Ready;
    assert(!ready[k]);
    let next = start_plan::law_some_command_can_start(schedule.commands, ready);
    assert(schedule.states[next] != StartState::Ready);
    let waits = start_plan::waits(schedule.commands, next);
    let graph = start_plan::graph_of(schedule.commands);
    assert forall|j: int| 0 <= j < waits.len() implies schedule.states[#[trigger] waits[j]]
        == StartState::Ready by {
        assert(graph[next][j] == waits[j]);
        assert(ready[waits[j]]);
    }
    lemma_next_from(schedule, 0, next);
}

proof fn lemma_next_from(schedule: ScheduleView, from: int, index: int)
    requires
        0 <= from <= index < schedule.states.len(),
        schedule.states[index] == StartState::Pending,
        schedule.unblocked(index),
    ensures
        schedule.next_from(from) <= index,
    decreases index - from,
{
    if from < index {
        lemma_next_from(schedule, from + 1, index);
    }
}

} // verus!
