//! The cursor on a desktop.

use vstd::prelude::*;

verus! {

/// Whether the window keeps the cursor, and whether it is seen.
#[derive(Clone, Copy, Debug, PartialEq, Eq, Structural)]
pub struct Cursor {
    pub locked: bool,
    pub visible: bool,
}

/// A cursor that is free, for the menu.
pub fn show_cursor() -> (c: Cursor)
    ensures
        c == (Cursor { locked: false, visible: true }),
{
    Cursor { locked: false, visible: true }
}

/// A cursor that is caught, for the game.
pub fn hide_cursor() -> (c: Cursor)
    ensures
        c == (Cursor { locked: true, visible: false }),
{
    Cursor { locked: true, visible: false }
}

} // verus!
