//! The playground: a platform with loose parts on it, and a character to walk around and
//! pick them up.

pub mod character;
pub mod environment;
pub mod map;
pub mod multiplayer;
pub mod network;
pub mod player;
pub mod ui;
pub mod utils;

use vstd::prelude::*;

verus! {

/// What the playground is doing.
#[derive(Clone, Copy, Debug, PartialEq, Eq, Structural)]
pub enum AppState {
    Initial,
    InGame,
    InGameMenu,
}

/// The stage whose systems run by the state.
pub const APP_STATE: &'static str = "app_state";

/// The physics step in a browser: a thirtieth of a second, in nanoseconds.
pub const WEB_STEP: u64 = 33_333_333;

/// The server's step: a sixtieth of a second, in nanoseconds.
pub const SERVER_STEP: u64 = 16_666_667;

} // verus!
