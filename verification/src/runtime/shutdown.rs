//! Ending commands: first asked, then told, then forced. Times are in
//! milliseconds.
use vstd::prelude::*;

verus! {

/// What is sent to a command that is to end.
#[derive(Debug, Clone, Copy, PartialEq, Eq, Structural)]
pub enum ShutdownSignal {
    Interrupt,
    Terminate,
    Kill,
}

/// How far the ending of a command has come.
#[derive(Debug, Clone, Copy, PartialEq, Eq, Structural)]
pub enum ShutdownStatus {
    Waiting(ShutdownSignal),
    Exited,
}

/// How long a command has to end after it was interrupted.
pub const INTERRUPT_TIMEOUT: u64 = 5000;

/// How long a command has to end after it was told to.
pub const TERMINATE_TIMEOUT: u64 = 2000;

/// How long it is until a command is forced again.
pub const KILL_RETRY_TIMEOUT: u64 = 500;

/// The ending of a command.
#[derive(Debug, Clone, Copy, PartialEq, Eq, Structural)]
pub struct ChildShutdown {
    pub signal: ShutdownSignal,
    pub next_escalation: u128,
    pub finished: bool,
}

/// The signal after another.
pub open spec fn stronger(signal: ShutdownSignal) -> ShutdownSignal {
    match signal {
        ShutdownSignal::Interrupt => ShutdownSignal::Terminate,
        _ => ShutdownSignal::Kill,
    }
}

/// How long it is from a signal to the next.
pub open spec fn patience(signal: ShutdownSignal) -> u64 {
    match signal {
        ShutdownSignal::Interrupt => INTERRUPT_TIMEOUT,
        ShutdownSignal::Terminate => TERMINATE_TIMEOUT,
        ShutdownSignal::Kill => KILL_RETRY_TIMEOUT,
    }
}

/// How strong a signal is.
pub open spec fn strength(signal: ShutdownSignal) -> int {
    match signal {
        ShutdownSignal::Interrupt => 0,
        ShutdownSignal::Terminate => 1,
        ShutdownSignal::Kill => 2,
    }
}

impl ChildShutdown {
    /// The ending of a command after the next signal.
    pub open spec fn escalated(self, now: u64) -> ChildShutdown {
        ChildShutdown {
            signal: stronger(self.signal),
            next_escalation: (now + patience(stronger(self.signal))) as u128,
            ..self
        }
    }

    /// The ending of a command at a time, when it has ended or not.
    pub open spec fn ticked(self, exited: bool, now: u64) -> ChildShutdown {
        if exited {
            ChildShutdown { finished: true, ..self }
        } else if now >= self.next_escalation {
            self.escalated(now)
        } else {
            self
        }
    }

    /// Begins to end a command. The signal is to be sent.
    pub fn start(now: u64) -> (result: Self)
        ensures
            result == (ChildShutdown {
                signal: ShutdownSignal::Interrupt,
                next_escalation: (now + INTERRUPT_TIMEOUT) as u128,
                finished: false,
            }),
    {
        ChildShutdown {
            signal: ShutdownSignal::Interrupt,
            next_escalation: now as u128 + INTERRUPT_TIMEOUT as u128,
            finished: false,
        }
    }

    /// How far it has come, of the ending of a command.
    pub open spec fn progress(self) -> ShutdownStatus {
        if self.finished {
            ShutdownStatus::Exited
        } else {
            ShutdownStatus::Waiting(self.signal)
        }
    }

    /// How far it has come.
    pub fn status(&self) -> (result: ShutdownStatus)
        ensures
            result == self.progress(),
    {
        if self.finished {
            ShutdownStatus::Exited
        } else {
            ShutdownStatus::Waiting(self.signal)
        }
    }

    /// Goes on at a time, when the command has ended or not. Where a signal
    /// comes back, it is to be sent.
    pub fn tick(&mut self, exited: bool, now: u64) -> (result: Option<ShutdownSignal>)
        ensures
            *final(self) == old(self).ticked(exited, now),
            result == if !exited && now >= old(self).next_escalation {
                Some(final(self).signal)
            } else {
                None
            },
    {
        if exited {
            self.finished = true;
            return None;
        }
        if now as u128 >= self.next_escalation {
            Some(self.escalate(now))
        } else {
            None
        }
    }

    /// Sends the next signal without waiting.
    pub fn escalate_now(&mut self, now: u64) -> (result: ShutdownSignal)
        ensures
            *final(self) == old(self).escalated(now),
            result == final(self).signal,
    {
        self.escalate(now)
    }

    /// Goes on to the next signal, which is to be sent.
    pub fn escalate(&mut self, now: u64) -> (result: ShutdownSignal)
        ensures
            *final(self) == old(self).escalated(now),
            result == final(self).signal,
    {
        match self.signal {
            ShutdownSignal::Interrupt => {
                self.signal = ShutdownSignal::Terminate;
                self.next_escalation = now as u128 + TERMINATE_TIMEOUT as u128;
            },
            ShutdownSignal::Terminate => {
                self.signal = ShutdownSignal::Kill;
                self.next_escalation = now as u128 + KILL_RETRY_TIMEOUT as u128;
            },
            ShutdownSignal::Kill => {
                self.next_escalation = now as u128 + KILL_RETRY_TIMEOUT as u128;
            },
        }
        self.signal
    }
}

/// How far the first of some commands that has not ended has come.
pub open spec fn first_waiting(shutdowns: Seq<ChildShutdown>) -> ShutdownStatus
    decreases shutdowns.len(),
{
    if shutdowns.len() == 0 {
        ShutdownStatus::Exited
    } else if !shutdowns[0].finished {
        shutdowns[0].progress()
    } else {
        first_waiting(shutdowns.drop_first())
    }
}

/// What is said while commands end.
pub open spec fn closing_text(status: ShutdownStatus) -> Seq<char> {
    match status {
        ShutdownStatus::Waiting(ShutdownSignal::Interrupt) => "closing... sent interrupt"@,
        ShutdownStatus::Waiting(ShutdownSignal::Terminate) => "closing... terminating children"@,
        ShutdownStatus::Waiting(ShutdownSignal::Kill) => "closing... force killing children"@,
        ShutdownStatus::Exited => "closing... children exited"@,
    }
}

/// What is said while commands end.
pub fn closing_message(shutdowns: &[ChildShutdown]) -> (result: &'static str)
    ensures
        result@ == closing_text(first_waiting(shutdowns@)),
{
    let mut status = ShutdownStatus::Exited;
    let mut i: usize = 0;
    let ghost all = shutdowns@;
    assert(all.skip(0) =~= all);
    while i < shutdowns.len() && shutdowns[i].finished
        invariant
            i <= shutdowns@.len(),
            all == shutdowns@,
            first_waiting(all) == first_waiting(all.skip(i as int)),
        decreases shutdowns@.len() - i,
    {
        assert(all.skip(i as int).drop_first() =~= all.skip(i + 1));
        i += 1;
    }
    if i < shutdowns.len() {
        assert(all.skip(i as int)[0] == shutdowns@[i as int]);
        status = shutdowns[i].status();
    }
    match status {
        ShutdownStatus::Waiting(ShutdownSignal::Interrupt) => "closing... sent interrupt",
        ShutdownStatus::Waiting(ShutdownSignal::Terminate) => "closing... terminating children",
        ShutdownStatus::Waiting(ShutdownSignal::Kill) => "closing... force killing children",
        ShutdownStatus::Exited => "closing... children exited",
    }
}

/// What is to be done when the user wants to leave.
#[derive(Debug, Clone, Copy, PartialEq, Eq, Structural)]
pub enum QuitStep {
    /// The viewer ends: no command runs.
    Leave,
    /// The commands are told to end.
    Begin,
    /// The commands are told more forcefully.
    Escalate,
}

/// What is to be done when the user wants to leave.
pub fn quit_step(commands: usize, closing: bool) -> (result: QuitStep)
    ensures
        result == if commands == 0 {
            QuitStep::Leave
        } else if closing {
            QuitStep::Escalate
        } else {
            QuitStep::Begin
        },
{
    if commands == 0 {
        QuitStep::Leave
    } else if closing {
        QuitStep::Escalate
    } else {
        QuitStep::Begin
    }
}

/// Whether all commands have ended.
pub fn all_exited(shutdowns: &[ChildShutdown]) -> (result: bool)
    ensures
        result == (first_waiting(shutdowns@) == ShutdownStatus::Exited),
{
    let mut i: usize = 0;
    let ghost all = shutdowns@;
    assert(all.skip(0) =~= all);
    while i < shutdowns.len()
        invariant
            i <= shutdowns@.len(),
            all == shutdowns@,
            first_waiting(all) == first_waiting(all.skip(i as int)),
        decreases shutdowns@.len() - i,
    {
        assert(all.skip(i as int)[0] == shutdowns@[i as int]);
        if !shutdowns[i].finished {
            return false;
        }
        assert(all.skip(i as int).drop_first() =~= all.skip(i + 1));
        i += 1;
    }
    true
}

/// Signals only get stronger, and after two of them a command that has not
/// ended is forced.
pub proof fn law_signals_get_stronger(shutdown: ChildShutdown, exited: bool, now: u64, later: u64)
    ensures
        strength(shutdown.signal) <= strength(shutdown.ticked(exited, now).signal),
        shutdown.escalated(now).escalated(later).signal == ShutdownSignal::Kill,
{
}

/// A command that has ended is waited for no more.
pub proof fn law_ended_stays_ended(shutdown: ChildShutdown, exited: bool, now: u64)
    requires
        shutdown.finished,
    ensures
        shutdown.ticked(exited, now).progress() == ShutdownStatus::Exited,
{
}

} // verus!
