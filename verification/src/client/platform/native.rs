//! The desktop. Nothing is kept between runs, and panics go to the terminal.

use vstd::prelude::*;
use vstd::string::*;
use crate::client::AppState;

verus! {

/// Panics are printed already: nothing to install.
pub fn install_panic_hook() {
}

/// No panic is kept.
pub fn take_stored_panic() -> (panic: Option<String>)
    ensures
        panic is None,
{
    None
}

/// No name is kept.
pub fn store_name(_name: &str) {
}

/// No name is kept.
pub fn stored_name() -> (name: Option<String>)
    ensures
        name is None,
{
    None
}

/// No avatar is kept.
pub fn store_avatar(_monster: u8) {
}

/// No avatar is kept.
pub fn stored_avatar() -> (monster: Option<u8>)
    ensures
        monster is None,
{
    None
}

/// What is printed where the browser would copy: there is no clipboard.
pub fn copy_to_clipboard(text: &str) -> (printed: String)
    ensures
        printed@ == "[movement settings]\n"@ + text@,
{
    let mut printed: String = String::from_str("[movement settings]\n");
    printed.append(text);
    printed
}

/// The mouse cursor.
#[derive(Clone, Copy, Debug, PartialEq, Eq, Structural)]
pub struct Cursor {
    pub locked: bool,
    pub visible: bool,
}

/// Frees and shows the cursor of the window, if there is one window.
pub fn show_cursor(cursor: &mut Option<Cursor>)
    ensures
        *final(cursor) == match *old(cursor) {
            Some(_) => Some(Cursor { locked: false, visible: true }),
            None => None,
        },
{
    if cursor.is_some() {
        *cursor = Some(Cursor { locked: false, visible: true });
    }
}

/// Locks and hides the cursor of the window, if there is one window.
pub fn hide_cursor(cursor: &mut Option<Cursor>)
    ensures
        *final(cursor) == match *old(cursor) {
            Some(_) => Some(Cursor { locked: true, visible: false }),
            None => None,
        },
{
    if cursor.is_some() {
        *cursor = Some(Cursor { locked: true, visible: false });
    }
}

/// The state that the Escape key leads to, if it was pressed: in and out of the menu.
pub open spec fn escaped(state: AppState) -> Option<AppState> {
    match state {
        AppState::InGame => Some(AppState::InGameMenu),
        AppState::InGameMenu => Some(AppState::InGame),
        AppState::Initial => None,
    }
}

/// The state to go to: Escape opens and closes the menu.
pub fn toggle_menu_on_key(escape_pressed: bool, state: AppState) -> (next: Option<AppState>)
    ensures
        next == if escape_pressed {
            escaped(state)
        } else {
            None
        },
{
    if escape_pressed {
        match state {
            AppState::InGame => Some(AppState::InGameMenu),
            AppState::InGameMenu => Some(AppState::InGame),
            AppState::Initial => None,
        }
    } else {
        None
    }
}

/// Pressing Escape twice leads back.
pub proof fn law_escape_toggles(state: AppState)
    requires
        escaped(state) is Some,
    ensures
        escaped(escaped(state)->0) == Some(state),
{
}

/// Escape opens the menu in the game and closes it in the menu, and does nothing before either.
pub proof fn law_escape_leads_in_and_out(state: AppState)
    ensures
        escaped(AppState::InGame) == Some(AppState::InGameMenu),
        escaped(AppState::InGameMenu) == Some(AppState::InGame),
        escaped(AppState::Initial) is None,
        escaped(state) != Some(state),
{
}

} // verus!
