//! The pointer in a browser, which the page has or has not.

use crate::playground::AppState;
use vstd::prelude::*;

verus! {

/// Whether the page has the pointer.
#[derive(Clone, Copy, Debug, PartialEq, Eq, Structural)]
pub struct WasmPointerLockTracker {
    pub lock: bool,
}

/// Which part of the page has the pointer.
#[derive(Clone, Copy, Debug, PartialEq, Eq, Structural)]
pub enum LockElement {
    Body,
    Other,
    Nothing,
}

impl WasmPointerLockTracker {
    /// At first the page does not have it.
    pub fn new() -> (t: Self)
        ensures
            !t.lock,
    {
        WasmPointerLockTracker { lock: false }
    }

    /// The pointer was caught or let go. What another part of the page does with it does not
    /// matter.
    pub fn on_lock_change(&mut self, element: LockElement)
        ensures
            final(self).lock == match element {
                LockElement::Body => true,
                LockElement::Other => old(self).lock,
                LockElement::Nothing => false,
            },
    {
        match element {
            LockElement::Body => {
                self.lock = true;
            },
            LockElement::Other => {},
            LockElement::Nothing => {
                self.lock = false;
            },
        }
    }

    /// Whether the page has the pointer.
    pub fn get(&self) -> (lock: bool)
        ensures
            lock == self.lock,
    {
        self.lock
    }
}

/// The state that the menu gives way to once the page has the pointer.
pub fn close_menu_if_locked(tracker: &WasmPointerLockTracker) -> (next: Option<AppState>)
    ensures
        next == (if tracker.lock {
            Some(AppState::InGame)
        } else {
            None
        }),
{
    if tracker.get() {
        Some(AppState::InGame)
    } else {
        None
    }
}

/// The state that the game gives way to once the page has lost the pointer.
pub fn open_menu_if_unlocked(tracker: &WasmPointerLockTracker) -> (next: Option<AppState>)
    ensures
        next == (if tracker.lock {
            None
        } else {
            Some(AppState::InGameMenu)
        }),
{
    if !tracker.get() {
        Some(AppState::InGameMenu)
    } else {
        None
    }
}

} // verus!
