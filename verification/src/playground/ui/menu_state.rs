//! A menu that is open or closed, whatever else goes on.

use super::native::{hide_cursor as caught, show_cursor as free, Cursor};
use super::ButtonMaterials;
use crate::client::colour::{rgb, Rgba};
use vstd::prelude::*;

verus! {

/// Whether the menu is open.
#[derive(Clone, Copy, Debug, PartialEq, Eq, Structural)]
pub enum MenuState {
    Open,
    Closed,
}

impl Default for MenuState {
    fn default() -> (s: Self)
        ensures
            s == MenuState::Closed,
    {
        MenuState::Closed
    }
}

/// The other state.
pub open spec fn toggled(s: MenuState) -> MenuState {
    match s {
        MenuState::Open => MenuState::Closed,
        MenuState::Closed => MenuState::Open,
    }
}

/// Opens or closes the menu on Escape.
pub fn toggle_menu_state(escape_just_pressed: bool, state: &mut MenuState)
    ensures
        *final(state) == (if escape_just_pressed {
            toggled(*old(state))
        } else {
            *old(state)
        }),
{
    if escape_just_pressed {
        *state = match *state {
            MenuState::Closed => MenuState::Open,
            MenuState::Open => MenuState::Closed,
        };
    }
}

/// The cursor: caught while the menu is closed, and free while it is open.
pub fn hide_cursor(state: MenuState) -> (c: Cursor)
    ensures
        c == (Cursor { locked: state == MenuState::Closed, visible: state == MenuState::Open }),
{
    match state {
        MenuState::Closed => caught(),
        MenuState::Open => free(),
    }
}

/// The colours of the buttons: green when pressed.
pub fn button_materials() -> (m: ButtonMaterials)
    ensures
        m.normal == (Rgba { r: 150_000, g: 150_000, b: 150_000, a: 1_000_000 }),
        m.hovered == (Rgba { r: 250_000, g: 250_000, b: 250_000, a: 1_000_000 }),
        m.pressed == (Rgba { r: 350_000, g: 750_000, b: 350_000, a: 1_000_000 }),
{
    ButtonMaterials {
        normal: rgb(150_000, 150_000, 150_000),
        hovered: rgb(250_000, 250_000, 250_000),
        pressed: rgb(350_000, 750_000, 350_000),
    }
}

/// The law of the menu: Escape twice changes nothing.
pub proof fn law_escape_twice_changes_nothing(s: MenuState)
    ensures
        toggled(toggled(s)) == s,
{
}

} // verus!
