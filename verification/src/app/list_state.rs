//! Lists that can be searched and moved through.
use crate::text;
use vstd::prelude::*;

verus! {

/// What is typed into a list's search, and which row is selected.
#[derive(Debug, PartialEq, Eq)]
pub struct SearchableListState {
    pub query: String,
    pub selected: usize,
}

/// What a list state is.
pub struct ListView {
    pub query: Seq<char>,
    pub selected: int,
}

impl View for SearchableListState {
    type V = ListView;

    open spec fn view(&self) -> ListView {
        ListView { query: self.query@, selected: self.selected as int }
    }
}

/// The index in a list of some length that is nearest to a number.
pub open spec fn clamped(selected: int, len: int) -> int {
    if len <= 0 {
        0
    } else if selected >= len {
        len - 1
    } else {
        selected
    }
}

impl ListView {
    /// A list before anything is typed or moved.
    pub open spec fn start() -> ListView {
        ListView { query: Seq::empty(), selected: 0 }
    }

    /// The selection moved down in a list of some length.
    pub open spec fn moved_down(self, amount: int, len: int) -> ListView {
        ListView { selected: clamped(self.selected + amount, len), ..self }
    }

    /// The selection moved up.
    pub open spec fn moved_up(self, amount: int) -> ListView {
        ListView {
            selected: if self.selected >= amount {
                self.selected - amount
            } else {
                0
            },
            ..self
        }
    }

    /// The query with a character more.
    pub open spec fn typed(self, value: char) -> ListView {
        ListView { query: self.query.push(value), ..self }
    }

    /// The query without its last character.
    pub open spec fn erased(self) -> ListView {
        ListView {
            query: if self.query.len() > 0 {
                self.query.drop_last()
            } else {
                self.query
            },
            ..self
        }
    }

    /// The selection within a list of some length.
    pub open spec fn synced(self, len: int) -> ListView {
        ListView { selected: clamped(self.selected, len), ..self }
    }
}

/// A text without its last character.
pub fn without_last_char(value: &str) -> (result: String)
    ensures
        result@ == if value@.len() > 0 {
            value@.drop_last()
        } else {
            value@
        },
{
    let chars = text::chars_of(value);
    if chars.len() == 0 {
        return text::copy_str(value);
    }
    assert(chars@.drop_last() =~= chars@.take(chars@.len() - 1));
    text::string_of(text::chars_take(chars.as_slice(), chars.len() - 1))
}

impl Default for SearchableListState {
    fn default() -> (result: Self)
        ensures
            result@ == ListView::start(),
    {
        SearchableListState { query: String::new(), selected: 0 }
    }
}

impl SearchableListState {
    /// The selected row.
    pub fn selected(&self) -> (result: usize)
        ensures
            result == self@.selected,
    {
        self.selected
    }

    /// What is typed into the search.
    pub fn query(&self) -> (result: &str)
        ensures
            result@ == self@.query,
    {
        self.query.as_str()
    }

    /// Moves the selection down.
    pub fn move_down(&mut self, amount: usize, len: usize)
        ensures
            final(self)@ == old(self)@.moved_down(amount as int, len as int),
    {
        self.selected = self.selected.saturating_add(amount);
        self.sync(len);
    }

    /// Moves the selection up.
    pub fn move_up(&mut self, amount: usize)
        ensures
            final(self)@ == old(self)@.moved_up(amount as int),
    {
        self.selected = self.selected.saturating_sub(amount);
    }

    /// Types a character into the search.
    pub fn push_query_char(&mut self, value: char)
        ensures
            final(self)@ == old(self)@.typed(value),
    {
        self.query.push(value);
    }

    /// Erases the last character of the search.
    pub fn pop_query_char(&mut self)
        ensures
            final(self)@ == old(self)@.erased(),
    {
        self.query = without_last_char(self.query.as_str());
    }

    /// Keeps the selection within a list of some length.
    pub fn sync(&mut self, len: usize)
        ensures
            final(self)@ == old(self)@.synced(len as int),
    {
        if len == 0 {
            self.selected = 0;
        } else if self.selected > len - 1 {
            self.selected = len - 1;
        }
    }
}

/// After any move or change of length the selection is a row of the list.
pub proof fn law_selection_is_a_row(state: ListView, amount: int, len: int)
    requires
        state.selected >= 0,
        amount >= 0,
        len > 0,
    ensures
        0 <= state.moved_down(amount, len).selected < len,
        0 <= state.synced(len).selected < len,
        state.selected < len ==> 0 <= state.moved_up(amount).selected < len,
{
}

} // verus!
