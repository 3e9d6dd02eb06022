//! The mouse in a browser, whose events are kept until the next frame asks for them.

use super::{FocusedInteractable, Holding};
use vstd::prelude::*;

verus! {

/// The mouse's last motion.
#[derive(Clone, Copy, Debug, PartialEq, Eq, Structural)]
pub struct WasmMouseMovementTracker {
    pub delta_x: i32,
    pub delta_y: i32,
}

impl WasmMouseMovementTracker {
    /// A mouse at rest.
    pub fn new() -> (t: Self)
        ensures
            t.delta_x == 0 && t.delta_y == 0,
    {
        WasmMouseMovementTracker { delta_x: 0, delta_y: 0 }
    }

    /// The mouse moved: what it did before is forgotten.
    pub fn on_move(&mut self, dx: i32, dy: i32)
        ensures
            final(self).delta_x == dx,
            final(self).delta_y == dy,
    {
        self.delta_x = dx;
        self.delta_y = dy;
    }

    /// The last motion, which is then forgotten.
    pub fn get_delta_and_reset(&mut self) -> (delta: (i32, i32))
        ensures
            delta == (old(self).delta_x, old(self).delta_y),
            final(self).delta_x == 0 && final(self).delta_y == 0,
    {
        let delta: (i32, i32) = (self.delta_x, self.delta_y);
        self.delta_x = 0;
        self.delta_y = 0;
        delta
    }
}

/// How the mouse moved in a frame, in thousandths: 0.15 of what the browser says.
pub fn get_look(tracker: &mut WasmMouseMovementTracker) -> (look: (i64, i64))
    ensures
        look.0 == old(tracker).delta_x * 150,
        look.1 == old(tracker).delta_y * 150,
        final(tracker).delta_x == 0 && final(tracker).delta_y == 0,
{
    let (x, y): (i32, i32) = tracker.get_delta_and_reset();
    (x as i64 * 150, y as i64 * 150)
}

/// Whether the left button went down since a frame last asked.
#[derive(Clone, Copy, Debug, PartialEq, Eq, Structural)]
pub struct WasmMouseClickTracker {
    pub pressed: bool,
}

impl WasmMouseClickTracker {
    /// A mouse without a click.
    pub fn new() -> (t: Self)
        ensures
            !t.pressed,
    {
        WasmMouseClickTracker { pressed: false }
    }

    /// A button went down. The left one has number zero.
    pub fn on_mouse_down(&mut self, button: i16)
        ensures
            final(self).pressed == (old(self).pressed || button == 0),
    {
        if button == 0 {
            self.pressed = true;
        }
    }

    /// Whether the button went down, which is then forgotten.
    pub fn just_pressed(&mut self) -> (pressed: bool)
        ensures
            pressed == old(self).pressed,
            !final(self).pressed,
    {
        let pressed: bool = self.pressed;
        if pressed {
            self.pressed = false;
        }
        pressed
    }
}

/// Takes what the player looks at, or lets go of it, on a click.
pub fn process_mouse_clicks(
    tracker: &mut WasmMouseClickTracker,
    holding: &mut Holding,
    focused: &FocusedInteractable,
)
    ensures
        !final(tracker).pressed,
        final(holding).0 == (if old(tracker).pressed && focused.current is Some {
            !old(holding).0
        } else {
            old(holding).0
        }),
{
    if tracker.just_pressed() {
        if focused.current.is_some() {
            holding.0 = !holding.0;
        }
    }
}

} // verus!
