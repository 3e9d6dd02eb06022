//! The mouse of a desktop.

use vstd::prelude::*;

verus! {

/// What is kept of the mouse between frames: nothing.
#[derive(Clone, Copy, Debug, PartialEq, Eq, Structural)]
pub struct State;

impl Default for State {
    fn default() -> (s: Self)
        ensures
            s == State,
    {
        State
    }
}

/// A button of the mouse.
#[derive(Clone, Copy, Debug, PartialEq, Eq, Structural)]
pub enum MouseButton {
    Left,
}

/// How the mouse moved in a frame: what its last event says, if there was one.
pub fn get_look(events: &[(i64, i64)]) -> (look: (i64, i64))
    ensures
        look == (if events@.len() == 0 {
            (0i64, 0i64)
        } else {
            events@.last()
        }),
{
    if events.len() == 0 {
        (0, 0)
    } else {
        events[events.len() - 1]
    }
}

/// The click that a frame brought: that of the left button.
pub fn process_mouse_clicks(left_just_pressed: bool) -> (click: Option<MouseButton>)
    ensures
        click == (if left_just_pressed {
            Some(MouseButton::Left)
        } else {
            None
        }),
{
    if left_just_pressed {
        Some(MouseButton::Left)
    } else {
        None
    }
}

} // verus!
