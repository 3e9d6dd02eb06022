//! The browser, which has the last word on the pointer and may put the page to sleep.

use vstd::prelude::*;
use vstd::string::*;
use crate::client::AppState;
use crate::text::to_decimal;
use crate::text::decimal;

verus! {

/// How often the look is saved, in nanoseconds.
pub const LOOK_BEACON_EVERY: i64 = 200_000_000;

/// Whether something on the page holds the pointer.
#[derive(Clone, Copy, Debug, PartialEq, Eq, Structural)]
pub struct PointerLockTracker {
    pub lock: bool,
}

impl PointerLockTracker {
    /// Nothing holds the pointer at first.
    pub fn new() -> (t: PointerLockTracker)
        ensures
            !t.lock,
    {
        PointerLockTracker { lock: false }
    }

    /// The browser reports a change: whether any element holds the pointer now.
    pub fn pointer_lock_changed(&mut self, held: bool)
        ensures
            final(self).lock == held,
    {
        self.lock = held;
    }

    /// Whether the pointer is held.
    pub fn get(&self) -> (held: bool)
        ensures
            held == self.lock,
    {
        self.lock
    }
}

/// Whether to ask the browser for the pointer on entering the game. Touch browsers throw
/// when asked, and so may one that is played with a controller alone.
pub fn hide_cursor(mobile: bool, gamepad: bool) -> (ask: bool)
    ensures
        ask == (!mobile && !gamepad),
{
    !mobile && !gamepad
}

/// Whether the menu follows the pointer at all: a page that never gets the pointer would
/// be sent to the menu in every frame.
pub fn menu_follows_pointer(mobile: bool, gamepad: bool) -> (follows: bool)
    ensures
        follows == (!mobile && !gamepad),
{
    !mobile && !gamepad
}

/// The state to go to: the game while the pointer is held, the menu while it is not.
pub fn toggle_menu_on_pointer_lock(tracker: &PointerLockTracker, state: AppState) -> (next: Option<
    AppState,
>)
    ensures
        next == match (tracker.lock, state) {
            (true, AppState::InGameMenu) => Some(AppState::InGame),
            (false, AppState::InGame) => Some(AppState::InGameMenu),
            _ => None,
        },
{
    match (tracker.get(), state) {
        (true, AppState::InGameMenu) => Some(AppState::InGame),
        (false, AppState::InGame) => Some(AppState::InGameMenu),
        _ => None,
    }
}

/// Counts the frames that show the ground, and says once, on the third, that the game is
/// on screen: the page then hides what covers it.
pub fn signal_game_ready(ground: bool, frames: &mut u32, done: &mut bool) -> (signal: bool)
    requires
        *old(done) || *old(frames) < 3,
    ensures
        *old(done) || !ground ==> !signal && *final(frames) == *old(frames) && *final(done) == *old(
            done,
        ),
        !*old(done) && ground ==> {
            &&& *final(frames) == *old(frames) + 1
            &&& signal == (*final(frames) >= 3)
            &&& *final(done) == signal
        },
        *final(done) || *final(frames) < 3,
{
    if *done || !ground {
        return false;
    }
    *frames = *frames + 1;
    if *frames >= 3 {
        *done = true;
        return true;
    }
    false
}

/// Counts a frame and gives the count as text, for the page's watchdog: a count that
/// stands still is a game that does. It starts over when it runs out.
pub fn heartbeat(frames: &mut u32) -> (tick: String)
    ensures
        *final(frames) == (if *old(frames) == u32::MAX {
            0
        } else {
            (*old(frames) + 1) as u32
        }),
        tick@ == decimal(*final(frames) as nat),
{
    *frames =
    if *frames == u32::MAX {
        0
    } else {
        *frames + 1
    };
    to_decimal(*frames as u64)
}

/// Whether to save the look now: at most five times a second. `dt` is the length of the
/// frame.
pub fn write_look_beacon(throttle: &mut i64, dt: u32, player: bool) -> (save: bool)
    requires
        *old(throttle) <= LOOK_BEACON_EVERY,
        *old(throttle) >= i64::MIN + u32::MAX,
    ensures
        *old(throttle) - dt > 0 ==> !save && *final(throttle) == *old(throttle) - dt,
        *old(throttle) - dt <= 0 ==> save == player && *final(throttle) == LOOK_BEACON_EVERY,
        0 < *final(throttle) <= LOOK_BEACON_EVERY,
{
    *throttle = *throttle - dt as i64;
    if *throttle > 0 {
        return false;
    }
    *throttle = LOOK_BEACON_EVERY;
    player
}

} // verus!
