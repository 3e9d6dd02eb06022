//! The game client: flight path, launch, input, avatars, outlines and the rest.

pub mod asteroids;
pub mod chase;
pub mod colour;
pub mod corners;
pub mod gamepad;
pub mod gizmo;
pub mod highlight;
pub mod hud;
pub mod input;
pub mod launch;
pub mod materials;
pub mod mobile;
pub mod monster;
pub mod net;
pub mod outline;
pub mod pilot;
pub mod planet;
pub mod platform;
pub mod random;
pub mod render_main_pass;
pub mod render_secondary_pass;
pub mod replicated;
pub mod telemetry;
pub mod trajectory;
pub mod tube;

use vstd::prelude::*;

verus! {

/// What the client is doing.
#[derive(Clone, Copy, Debug, PartialEq, Eq, Structural)]
pub enum AppState {
    /// Before the first click, tap or button.
    Initial,
    /// Playing.
    InGame,
    /// The pointer is free, so that the controls on the screen can be clicked.
    InGameMenu,
}

impl Default for AppState {
    fn default() -> (state: Self)
        ensures
            state == AppState::Initial,
    {
        AppState::Initial
    }
}

/// A player, and the point that its camera circles.
#[derive(Clone, Copy, Debug, PartialEq, Eq, Structural)]
pub struct NewPlayer {
    pub player: u64,
    pub orbit_center: u64,
}

/// A camera that becomes a player's, and is hung on the point that it circles.
#[derive(Clone, Copy, Debug, PartialEq, Eq, Structural)]
pub struct CameraMount {
    pub camera: u64,
    pub player: u64,
    pub orbit_center: u64,
}

/// Gives the first camera to the first player that has none.
pub fn add_camera_to_player(cameras: &[u64], players: &[NewPlayer]) -> (mount: Option<CameraMount>)
    ensures
        mount == (if cameras@.len() > 0 && players@.len() > 0 {
            Some(
                CameraMount {
                    camera: cameras@[0],
                    player: players@[0].player,
                    orbit_center: players@[0].orbit_center,
                },
            )
        } else {
            None
        }),
{
    if cameras.len() > 0 && players.len() > 0 {
        Some(
            CameraMount {
                camera: cameras[0],
                player: players[0].player,
                orbit_center: players[0].orbit_center,
            },
        )
    } else {
        None
    }
}

} // verus!
