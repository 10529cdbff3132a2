//! The terminal cursor: where a text caret shows, if anywhere, and the
//! backend operations that bring the terminal in line with it.
//!
//! The cursor is hidden unless an app places it. The presenter only
//! touches the terminal when the cursor differs from what it last applied,
//! and a caret moving between shown positions asks only to move.

use vstd::prelude::*;

use crate::geometry::Position;

verus! {

/// Where the terminal cursor shows: `None` keeps it hidden.
#[derive(Clone, Copy, Debug, PartialEq, Eq, Structural)]
pub struct TerminalCursor {
    /// The cell the cursor sits on, if shown.
    pub cell: Option<Position>,
}

impl TerminalCursor {
    /// A cursor shown at `cell`.
    pub fn at(cell: Position) -> (c: TerminalCursor)
        ensures
            c.cell == Some(cell),
    {
        TerminalCursor { cell: Some(cell) }
    }

    /// A hidden cursor.
    pub fn hidden() -> (c: TerminalCursor)
        ensures
            c.cell is None,
    {
        TerminalCursor { cell: None }
    }
}

impl Default for TerminalCursor {
    /// Hidden.
    fn default() -> (c: TerminalCursor)
        ensures
            c.cell is None,
    {
        TerminalCursor { cell: None }
    }
}

/// What the presenter last applied to the terminal's cursor.
#[derive(Clone, Copy, Debug, PartialEq, Eq, Structural)]
pub enum PreviousCursor {
    /// Nothing applied yet.
    Unknown,
    /// The cursor was last brought to this state.
    Applied(Option<Position>),
}

impl Default for PreviousCursor {
    /// Nothing applied yet.
    fn default() -> (p: PreviousCursor)
        ensures
            p == PreviousCursor::Unknown,
    {
        PreviousCursor::Unknown
    }
}

/// The backend operations that bring the terminal's cursor in line, in
/// order: move, then show; or hide. A flush follows.
#[derive(Clone, Copy, Debug, PartialEq, Eq, Structural)]
pub struct CursorUpdate {
    /// Move the cursor to this cell.
    pub move_to: Option<Position>,
    /// Show the cursor after moving it.
    pub show: bool,
    /// Hide the cursor.
    pub hide: bool,
}

/// What applying `cursor` asks of the terminal after `previous`: nothing
/// when it is already applied; otherwise a move to its cell, showing it
/// only if it was not already shown, or hiding it.
pub open spec fn cursor_update_spec(cursor: TerminalCursor, previous: PreviousCursor) -> Option<
    CursorUpdate,
> {
    if previous == PreviousCursor::Applied(cursor.cell) {
        None
    } else {
        let was_hidden = !(previous matches PreviousCursor::Applied(Some(_)));
        match cursor.cell {
            Some(cell) => Some(CursorUpdate { move_to: Some(cell), show: was_hidden, hide: false }),
            None => Some(CursorUpdate { move_to: None, show: false, hide: true }),
        }
    }
}

/// What applying `cursor` asks of the terminal after `previous`; see
/// [`cursor_update_spec`]. Once the operations succeed, the cursor is
/// applied: [`PreviousCursor::Applied`] of its cell.
pub fn cursor_update(cursor: TerminalCursor, previous: PreviousCursor) -> (u: Option<CursorUpdate>)
    ensures
        u == cursor_update_spec(cursor, previous),
{
    if previous == PreviousCursor::Applied(cursor.cell) {
        return None;
    }
    let was_hidden = match previous {
        PreviousCursor::Applied(Some(_)) => false,
        _ => true,
    };
    match cursor.cell {
        Some(cell) => Some(CursorUpdate { move_to: Some(cell), show: was_hidden, hide: false }),
        None => Some(CursorUpdate { move_to: None, show: false, hide: true }),
    }
}

/// A cursor once applied asks nothing more of the terminal until it
/// changes, and an unchanged cursor never asks to show again.
pub proof fn lemma_applied_cursor_is_settled(cursor: TerminalCursor, next: TerminalCursor)
    ensures
        cursor_update_spec(cursor, PreviousCursor::Applied(cursor.cell)) is None,
        cursor.cell is Some && next.cell is Some && next != cursor ==> cursor_update_spec(
            next,
            PreviousCursor::Applied(cursor.cell),
        ) == Some(CursorUpdate { move_to: next.cell, show: false, hide: false }),
{
}

} // verus!
