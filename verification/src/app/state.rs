//! The state of the interactive table: its entries, the selected row and a
//! status message.
use vstd::prelude::*;

use crate::data::LlmCostEntry;
use crate::text::{concat, push_decimal};

use super::{copy_status, cursor_after, key_outcome, Key, KeyOutcome};

verus! {

/// How many rows a page move skips.
pub const PAGE_ROWS: usize = 20;

/// The row that the cursor may stand on last: the last entry, or the first
/// row of an empty table.
pub open spec fn last_row(len: nat) -> nat {
    if len == 0 {
        0
    } else {
        (len - 1) as nat
    }
}

/// The table being browsed.
pub struct AppState {
    entries: Vec<LlmCostEntry>,
    selected: usize,
    status: Option<String>,
}

impl AppState {
    /// The cursor stands on an entry, or on the first row of an empty table.
    #[verifier::type_invariant]
    spec fn cursor_in_table(&self) -> bool {
        self.selected <= last_row(self.entries@.len())
    }

    /// The entries shown.
    pub closed spec fn rows(&self) -> Seq<LlmCostEntry> {
        self.entries@
    }

    /// The index of the selected row.
    pub closed spec fn cursor(&self) -> nat {
        self.selected as nat
    }

    /// The status message waiting to be shown, if any.
    pub closed spec fn status_message(&self) -> Option<Seq<char>> {
        match self.status {
            None => None,
            Some(s) => Some(s@),
        }
    }

    /// The cursor stands on an entry, or on the first row of an empty table.
    pub open spec fn cursor_in_rows(&self) -> bool {
        self.cursor() <= last_row(self.rows().len())
    }

    /// A table of `entries` with the first row selected and no status.
    pub fn new(entries: Vec<LlmCostEntry>) -> (s: Self)
        ensures
            s.rows() == entries@,
            s.cursor() == 0,
            s.status_message() is None,
            s.cursor_in_rows(),
    {
        Self { entries, selected: 0, status: None }
    }

    /// The index of the selected row: never past the last entry, and 0 for an
    /// empty table.
    pub fn selected(&self) -> (i: usize)
        ensures
            i == self.cursor(),
            i <= last_row(self.rows().len()),
    {
        proof {
            use_type_invariant(self);
        }
        let last = self.entries.len().saturating_sub(1);
        if self.selected < last {
            self.selected
        } else {
            last
        }
    }

    /// The entries shown.
    pub fn visible_entries(&self) -> (e: &[LlmCostEntry])
        ensures
            e@ == self.rows(),
    {
        self.entries.as_slice()
    }

    /// The entries of the table.
    pub fn entries(&self) -> (e: &[LlmCostEntry])
        ensures
            e@ == self.rows(),
    {
        self.entries.as_slice()
    }

    /// Moves the cursor one row down, unless it is on the last row.
    pub fn next(&mut self)
        ensures
            final(self).cursor_in_rows(),
            final(self).rows() == old(self).rows(),
            final(self).status_message() == old(self).status_message(),
            final(self).cursor() == if old(self).cursor() + 1 < old(self).rows().len() {
                old(self).cursor() + 1
            } else {
                old(self).cursor()
            },
    {
        proof {
            use_type_invariant(&*self);
        }
        if self.selected < self.entries.len().saturating_sub(1) {
            self.selected += 1;
        }
        proof {
            use_type_invariant(&*self);
        }
    }

    /// Moves the cursor one row up, unless it is on the first row.
    pub fn previous(&mut self)
        ensures
            final(self).cursor_in_rows(),
            final(self).rows() == old(self).rows(),
            final(self).status_message() == old(self).status_message(),
            final(self).cursor() == if old(self).cursor() > 0 {
                (old(self).cursor() - 1) as nat
            } else {
                0
            },
    {
        proof {
            use_type_invariant(&*self);
        }
        if self.selected > 0 {
            self.selected -= 1;
        }
        proof {
            use_type_invariant(&*self);
        }
    }

    /// Moves the cursor a page down, stopping at the last row.
    pub fn page_down(&mut self)
        ensures
            final(self).cursor_in_rows(),
            final(self).rows() == old(self).rows(),
            final(self).status_message() == old(self).status_message(),
            final(self).cursor() == if old(self).cursor() + PAGE_ROWS < last_row(
                old(self).rows().len(),
            ) {
                old(self).cursor() + PAGE_ROWS
            } else {
                last_row(old(self).rows().len()) as int
            },
    {
        proof {
            use_type_invariant(&*self);
        }
        let max = self.entries.len().saturating_sub(1);
        let moved = self.selected.saturating_add(PAGE_ROWS);
        self.selected = if moved < max {
            moved
        } else {
            max
        };
        proof {
            use_type_invariant(&*self);
        }
    }

    /// Moves the cursor a page up, stopping at the first row.
    pub fn page_up(&mut self)
        ensures
            final(self).cursor_in_rows(),
            final(self).rows() == old(self).rows(),
            final(self).status_message() == old(self).status_message(),
            final(self).cursor() == if old(self).cursor() > PAGE_ROWS {
                (old(self).cursor() - PAGE_ROWS) as nat
            } else {
                0
            },
    {
        proof {
            use_type_invariant(&*self);
        }
        self.selected = self.selected.saturating_sub(PAGE_ROWS);
        proof {
            use_type_invariant(&*self);
        }
    }

    /// Selects the first row.
    pub fn go_to_top(&mut self)
        ensures
            final(self).cursor_in_rows(),
            final(self).rows() == old(self).rows(),
            final(self).status_message() == old(self).status_message(),
            final(self).cursor() == 0,
    {
        proof {
            use_type_invariant(&*self);
        }
        self.selected = 0;
        proof {
            use_type_invariant(&*self);
        }
    }

    /// Selects the last row, if the table has one.
    pub fn go_to_bottom(&mut self)
        ensures
            final(self).cursor_in_rows(),
            final(self).rows() == old(self).rows(),
            final(self).status_message() == old(self).status_message(),
            final(self).cursor() == last_row(old(self).rows().len()),
    {
        proof {
            use_type_invariant(&*self);
        }
        if self.entries.len() > 0 {
            self.selected = self.entries.len() - 1;
        }
        proof {
            use_type_invariant(&*self);
        }
    }

    /// Keeps `status` to be shown once.
    pub fn set_status(&mut self, status: String)
        ensures
            final(self).cursor_in_rows(),
            final(self).rows() == old(self).rows(),
            final(self).cursor() == old(self).cursor(),
            final(self).status_message() == Some(status@),
    {
        proof {
            use_type_invariant(&*self);
        }
        self.status = Some(status);
        proof {
            use_type_invariant(&*self);
        }
    }

    /// Takes the status message out, if there is one.
    pub fn take_status(&mut self) -> (s: Option<String>)
        ensures
            final(self).cursor_in_rows(),
            final(self).rows() == old(self).rows(),
            final(self).cursor() == old(self).cursor(),
            final(self).status_message() is None,
            match old(self).status_message() {
                None => s is None,
                Some(m) => s matches Some(t) && t@ == m,
            },
    {
        proof {
            use_type_invariant(&*self);
        }
        let s = match &self.status {
            None => None,
            Some(t) => Some(t.clone()),
        };
        self.status = None;
        proof {
            use_type_invariant(&*self);
        }
        s
    }

    /// Takes in a key: moves the cursor as the key asks and says what the
    /// program does next.
    pub fn handle_key(&mut self, key: Key) -> (r: KeyOutcome)
        ensures
            r == key_outcome(key),
            final(self).rows() == old(self).rows(),
            final(self).status_message() == old(self).status_message(),
            final(self).cursor() == cursor_after(key, old(self).cursor(), old(self).rows().len()),
            final(self).cursor_in_rows(),
    {
        proof {
            use_type_invariant(&*self);
        }
        match key {
            Key::Char('q') | Key::Esc => KeyOutcome::Quit,
            Key::Down | Key::Char('j') => {
                self.next();
                KeyOutcome::Redraw
            },
            Key::Up | Key::Char('k') => {
                self.previous();
                KeyOutcome::Redraw
            },
            Key::PageDown => {
                self.page_down();
                KeyOutcome::Redraw
            },
            Key::PageUp => {
                self.page_up();
                KeyOutcome::Redraw
            },
            Key::Home => {
                self.go_to_top();
                KeyOutcome::Redraw
            },
            Key::End => {
                self.go_to_bottom();
                KeyOutcome::Redraw
            },
            Key::Char('c') => KeyOutcome::Copy,
            _ => KeyOutcome::Ignored,
        }
    }

    /// Records how copying the table went: `Err` holds the reason it failed.
    pub fn record_copy(&mut self, outcome: Result<(), String>)
        ensures
            final(self).rows() == old(self).rows(),
            final(self).cursor() == old(self).cursor(),
            final(self).cursor_in_rows(),
            final(self).status_message() == Some(
                copy_status(
                    old(self).rows().len(),
                    match outcome {
                        Ok(()) => None,
                        Err(m) => Some(m@),
                    },
                ),
            ),
    {
        let status = match outcome {
            Ok(()) => {
                let mut s = "Copied ".to_owned();
                push_decimal(&mut s, self.entries().len());
                s.append(" rows to clipboard");
                s
            },
            Err(reason) => concat("Failed to copy: ", reason.as_str()),
        };
        self.set_status(status);
    }
}

} // verus!
