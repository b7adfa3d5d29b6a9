//! Lines on their way into the viewer.
use crate::text::{self, chars_contains, chars_of, concat, concat3};
use std::collections::VecDeque;
use vstd::prelude::*;

verus! {

broadcast use text::lemma_views_push;

/// How many lines may be on their way.
pub const LINE_CHANNEL_CAPACITY: usize = 1024;

/// Reads the output of a command: names the source of each line, and looks for
/// the line by which the command is ready.
#[derive(Debug, PartialEq, Eq)]
pub struct LineReader {
    pub source: Option<String>,
    pub ready_line: Option<String>,
    pub signaled_ready: bool,
}

/// What a reader is.
pub struct ReaderView {
    pub source: Option<Seq<char>>,
    pub ready_line: Option<Seq<char>>,
    pub signaled: bool,
}

impl View for LineReader {
    type V = ReaderView;

    open spec fn view(&self) -> ReaderView {
        ReaderView {
            source: text::opt_view(self.source),
            ready_line: text::opt_view(self.ready_line),
            signaled: self.signaled_ready,
        }
    }
}

impl ReaderView {
    /// A line with its source named.
    pub open spec fn named(self, line: Seq<char>) -> Seq<char> {
        match self.source {
            Some(source) => "["@ + source + "] "@ + line,
            None => line,
        }
    }

    /// Whether a line is the one by which the command is ready.
    pub open spec fn is_ready(self, line: Seq<char>) -> bool {
        match self.ready_line {
            Some(ready_line) => text::contains(line, ready_line),
            None => false,
        }
    }

    /// The reader after a line.
    pub open spec fn after(self, line: Seq<char>) -> ReaderView {
        ReaderView { signaled: self.signaled || self.is_ready(line), ..self }
    }
}

impl LineReader {
    /// A reader of lines as they are, or of lines of a source.
    pub fn new(source: Option<String>, ready_line: Option<String>) -> (result: Self)
        ensures
            result@ == (ReaderView {
                source: text::opt_view(source),
                ready_line: text::opt_view(ready_line),
                signaled: false,
            }),
    {
        LineReader { source, ready_line, signaled_ready: false }
    }

    /// Reads a line: the line as it goes on, and whether it is the first by
    /// which the command is ready.
    pub fn read_line(&mut self, line: String) -> (result: (String, bool))
        ensures
            result.0@ == old(self)@.named(line@),
            result.1 == (old(self)@.is_ready(line@) && !old(self)@.signaled),
            final(self)@ == old(self)@.after(line@),
    {
        let matches_ready = match &self.ready_line {
            Some(ready_line) => {
                let chars = chars_of(line.as_str());
                let wanted = chars_of(ready_line.as_str());
                chars_contains(chars.as_slice(), wanted.as_slice())
            },
            None => false,
        };
        let named = match &self.source {
            Some(source) => {
                let head = concat3("[", source.as_str(), "] ");
                concat(head.as_str(), line.as_str())
            },
            None => line,
        };
        let signals = matches_ready && !self.signaled_ready;
        if matches_ready {
            self.signaled_ready = true;
        }
        (named, signals)
    }
}

/// The lines that came while commands were started: the last of them.
#[derive(Debug)]
pub struct StartupLineBuffer {
    pub lines: VecDeque<String>,
    pub capacity: usize,
}

/// The last of some lines and another one.
pub open spec fn kept(lines: Seq<Seq<char>>, line: Seq<char>, capacity: int) -> Seq<Seq<char>> {
    if capacity == 0 {
        lines
    } else if lines.len() < capacity {
        lines.push(line)
    } else {
        lines.skip(lines.len() - capacity + 1).push(line)
    }
}

impl StartupLineBuffer {
    /// Keeps so many lines.
    pub fn new(capacity: usize) -> (result: Self)
        ensures
            result.lines@.len() == 0,
            result.capacity == capacity,
    {
        StartupLineBuffer { lines: VecDeque::new(), capacity }
    }

    /// Keeps a line.
    pub fn push(&mut self, line: String)
        ensures
            text::views(final(self).lines@) == kept(
                text::views(old(self).lines@),
                line@,
                old(self).capacity as int,
            ),
            final(self).capacity == old(self).capacity,
    {
        if self.capacity == 0 {
            return ;
        }
        let ghost all = text::views(self.lines@);
        assert(all.skip(0) =~= all);
        while self.lines.len() >= self.capacity
            invariant
                self.capacity == old(self).capacity,
                self.capacity > 0,
                all == text::views(old(self).lines@),
                self.lines@.len() <= all.len(),
                text::views(self.lines@) == all.skip(all.len() - self.lines@.len()),
                self.lines@.len() >= self.capacity || all.len() < self.capacity
                    || self.lines@.len() == self.capacity - 1,
                all.len() < self.capacity ==> self.lines@.len() == all.len(),
            decreases self.lines@.len(),
        {
            let ghost before = self.lines@;
            let _ = self.lines.pop_front();
            assert(text::views(self.lines@) =~= text::views(before).skip(1));
            assert(all.skip(all.len() - before.len()).skip(1) =~= all.skip(
                all.len() - self.lines@.len(),
            ));
        }
        self.lines.push_back(line);
    }

    /// The lines.
    pub fn into_vec(self) -> (result: Vec<String>)
        ensures
            result@ == self.lines@,
    {
        let mut lines = self.lines;
        let mut result: Vec<String> = Vec::new();
        while lines.len() > 0
            invariant
                result@ + lines@ == self.lines@,
            decreases lines@.len(),
        {
            let ghost before = result@;
            let ghost left = lines@;
            match lines.pop_front() {
                Some(line) => {
                    result.push(line);
                    assert(result@ + lines@ =~= before + left);
                },
                None => {},
            }
        }
        assert(result@ =~= self.lines@);
        result
    }
}

/// Of all lines that came the last are kept, and no more than there is room for.
pub proof fn law_last_lines_are_kept(lines: Seq<Seq<char>>, line: Seq<char>, capacity: int)
    requires
        0 < capacity,
        lines.len() <= capacity,
    ensures
        kept(lines, line, capacity).len() <= capacity,
        kept(lines, line, capacity).last() == line,
{
}

} // verus!
