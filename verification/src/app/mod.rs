//! What the interactive table decides: how a key moves the cursor, and what
//! the status and help lines say.
use vstd::prelude::*;

use crate::text::{concat, decimal};

pub mod state;

pub use self::state::AppState;

use self::state::{last_row, PAGE_ROWS};

verus! {

broadcast use vstd::string::group_string_axioms;

/// A key that the user pressed.
#[derive(Debug, Clone, Copy, PartialEq, Eq, Structural)]
pub enum Key {
    Char(char),
    Esc,
    Up,
    Down,
    PageUp,
    PageDown,
    Home,
    End,
    Other,
}

/// What the program does after a key.
#[derive(Debug, Clone, Copy, PartialEq, Eq, Structural)]
pub enum KeyOutcome {
    /// Leave the table.
    Quit,
    /// Show the table again: the cursor may have moved.
    Redraw,
    /// Copy the table to the clipboard, then record how that went.
    Copy,
    /// Nothing to do.
    Ignored,
}

/// What a key asks for.
pub open spec fn key_outcome(key: Key) -> KeyOutcome {
    match key {
        Key::Char('q') | Key::Esc => KeyOutcome::Quit,
        Key::Char('c') => KeyOutcome::Copy,
        Key::Down | Key::Char('j') | Key::Up | Key::Char('k') | Key::PageDown | Key::PageUp
        | Key::Home | Key::End => KeyOutcome::Redraw,
        _ => KeyOutcome::Ignored,
    }
}

/// Where a key moves the cursor from `cursor` in a table of `len` rows.
pub open spec fn cursor_after(key: Key, cursor: nat, len: nat) -> nat {
    match key {
        Key::Down | Key::Char('j') => if cursor + 1 < len {
            cursor + 1
        } else {
            cursor
        },
        Key::Up | Key::Char('k') => if cursor > 0 {
            (cursor - 1) as nat
        } else {
            0
        },
        Key::PageDown => if cursor + PAGE_ROWS < last_row(len) {
            (cursor + PAGE_ROWS) as nat
        } else {
            last_row(len)
        },
        Key::PageUp => if cursor > PAGE_ROWS {
            (cursor - PAGE_ROWS) as nat
        } else {
            0
        },
        Key::Home => 0,
        Key::End => last_row(len),
        _ => cursor,
    }
}

/// The status shown after copying `rows` rows: how it went.
pub open spec fn copy_status(rows: nat, failure: Option<Seq<char>>) -> Seq<char> {
    match failure {
        None => "Copied "@ + decimal(rows) + " rows to clipboard"@,
        Some(m) => "Failed to copy: "@ + m,
    }
}

/// The keys that the help line explains.
pub open spec fn help_keys() -> Seq<char> {
    "q/Esc: quit | ↑/k ↓/j: move | PgUp/PgDown: page | Home/End: top/bottom | c: copy"@
}

/// The help line: the status, if there is one, then the keys.
pub open spec fn help_line(status: Option<Seq<char>>) -> Seq<char> {
    match status {
        None => help_keys(),
        Some(s) => s + " | "@ + help_keys(),
    }
}

/// The help line: the status, if there is one, then the keys.
pub fn help_text(status: Option<String>) -> (line: String)
    ensures
        line@ == help_line(
            match status {
                None => None,
                Some(s) => Some(s@),
            },
        ),
{
    let keys = "q/Esc: quit | ↑/k ↓/j: move | PgUp/PgDown: page | Home/End: top/bottom | c: copy";
    match status {
        None => keys.to_owned(),
        Some(s) => {
            let head = concat(s.as_str(), " | ");
            concat(head.as_str(), keys)
        },
    }
}

/// No key moves the cursor off the table.
pub proof fn lemma_keys_keep_cursor_in_table(key: Key, cursor: nat, len: nat)
    requires
        cursor <= last_row(len),
    ensures
        cursor_after(key, cursor, len) <= last_row(len),
{
}

/// Only the keys that ask for a redraw move the cursor.
pub proof fn lemma_only_moves_redraw(key: Key, cursor: nat, len: nat)
    requires
        key_outcome(key) != KeyOutcome::Redraw,
    ensures
        cursor_after(key, cursor, len) == cursor,
{
}

/// Down then up comes back to the same row, unless the cursor was on the last
/// row.
pub proof fn lemma_down_then_up(cursor: nat, len: nat)
    requires
        cursor + 1 < len,
    ensures
        cursor_after(Key::Up, cursor_after(Key::Down, cursor, len), len) == cursor,
{
}

/// Up then down comes back to the same row, unless the cursor was on the first
/// row.
pub proof fn lemma_up_then_down(cursor: nat, len: nat)
    requires
        0 < cursor <= last_row(len),
    ensures
        cursor_after(Key::Down, cursor_after(Key::Up, cursor, len), len) == cursor,
{
}

/// A page down then a page up come back to the same row, unless the page down
/// stopped at the last row.
pub proof fn lemma_page_down_then_up(cursor: nat, len: nat)
    requires
        cursor + PAGE_ROWS < last_row(len),
    ensures
        cursor_after(Key::PageUp, cursor_after(Key::PageDown, cursor, len), len) == cursor,
{
}

/// At the bottom of the table, moving down stays there; at the top, moving up
/// stays there.
pub proof fn lemma_ends_are_fixed(len: nat)
    ensures
        cursor_after(Key::Down, last_row(len), len) == last_row(len),
        cursor_after(Key::End, last_row(len), len) == last_row(len),
        cursor_after(Key::Up, 0, len) == 0,
        cursor_after(Key::Home, 0, len) == 0,
{
}

/// The arrow keys move the cursor as the letter keys do: Down (like `j`) one
/// row down unless the cursor is on the last row, Up (like `k`) one row up
/// unless it is on the first; both ask for a redraw.
pub proof fn lemma_arrow_keys_move(cursor: nat, len: nat)
    ensures
        key_outcome(Key::Down) == KeyOutcome::Redraw,
        key_outcome(Key::Up) == KeyOutcome::Redraw,
        cursor_after(Key::Down, cursor, len) == cursor_after(Key::Char('j'), cursor, len),
        cursor_after(Key::Up, cursor, len) == cursor_after(Key::Char('k'), cursor, len),
        cursor + 1 < len ==> cursor_after(Key::Down, cursor, len) == cursor + 1,
        cursor + 1 >= len ==> cursor_after(Key::Down, cursor, len) == cursor,
        cursor > 0 ==> cursor_after(Key::Up, cursor, len) == cursor - 1,
        cursor == 0 ==> cursor_after(Key::Up, cursor, len) == 0,
{
}

/// What each key does to the cursor of a table of `len` rows: a page move
/// goes twenty rows, stopping at the first or last row; Home goes to the
/// first row and End to the last; `q` and Esc quit, `c` copies, and every
/// other key neither moves the cursor nor asks for anything.
pub proof fn lemma_key_moves(key: Key, cursor: nat, len: nat)
    requires
        cursor <= last_row(len),
    ensures
        key_outcome(Key::Char('q')) == KeyOutcome::Quit,
        key_outcome(Key::Esc) == KeyOutcome::Quit,
        key_outcome(Key::Char('c')) == KeyOutcome::Copy,
        key_outcome(Key::PageDown) == KeyOutcome::Redraw,
        key_outcome(Key::PageUp) == KeyOutcome::Redraw,
        key_outcome(Key::Home) == KeyOutcome::Redraw,
        key_outcome(Key::End) == KeyOutcome::Redraw,
        cursor_after(Key::PageDown, cursor, len) == if cursor + 20 < last_row(len) {
            cursor + 20
        } else {
            last_row(len)
        },
        cursor_after(Key::PageUp, cursor, len) == if cursor > 20 {
            cursor - 20
        } else {
            0
        },
        cursor_after(Key::Home, cursor, len) == 0,
        cursor_after(Key::End, cursor, len) == if len == 0 {
            0
        } else {
            len - 1
        },
        key == Key::Other || (key matches Key::Char(c) && c != 'q' && c != 'c' && c != 'j' && c
            != 'k') ==> key_outcome(key) == KeyOutcome::Ignored && cursor_after(key, cursor, len)
            == cursor,
{
}

/// After a copy that went well, the status names the number of rows copied:
/// `Copied `, then digits worth exactly `rows`, then ` rows to clipboard`.
pub proof fn lemma_copy_status_counts_rows(rows: nat)
    ensures
        ({
            let s = copy_status(rows, None);
            let n = s.len() - 18;
            &&& s.len() >= 26
            &&& s.subrange(0, 7) == "Copied "@
            &&& crate::data::magnitude::all_digits(s.subrange(7, n))
            &&& crate::data::magnitude::digits_value(s.subrange(7, n)) == rows
            &&& s.subrange(n, s.len() as int) == " rows to clipboard"@
        }),
{
    reveal_strlit("Copied ");
    reveal_strlit(" rows to clipboard");
    crate::text::lemma_decimal_reads_back(rows);
    let d = decimal(rows);
    let s = copy_status(rows, None);
    assert(d.len() >= 1) by {
        if rows >= 10 {
            assert(d == decimal(rows / 10).push(crate::text::digit(rows % 10)));
        }
    }
    assert(s.subrange(0, 7) =~= "Copied "@);
    assert(s.subrange(7, s.len() - 18) =~= d);
    assert(s.subrange(s.len() - 18, s.len() as int) =~= " rows to clipboard"@);
}

} // verus!
