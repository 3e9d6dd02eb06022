//! A camera that circles the player at a distance of its own.

use super::{
    at_least_at_most,
    less_turns,
    mouse_step,
    raise_and_lower,
    share_axis,
    share_of,
    step_of,
    take_off_turns,
    Config,
    View3d,
    FRAME_LIMIT,
    LOOK_LIMIT,
};
use crate::geom::Point;
use vstd::prelude::*;

verus! {

/// The camera's pitch from straight above, in microradians: from one degree to 179.
pub const MIN_CAMERA_PITCH: i64 = 17_453;

pub const MAX_CAMERA_PITCH: i64 = 3_124_139;

/// The view at first: 20 m away, 30 degrees from above.
pub fn first_view() -> (v: View3d)
    ensures
        v == (View3d { yaw: 0, pitch: 523_599, distance: 20_000_000 }),
{
    View3d { yaw: 0, pitch: 523_599, distance: 20_000_000 }
}

/// The mouse's motion since a frame last asked: the events add up, and wrap around.
#[derive(Clone, Copy, Debug, PartialEq, Eq, Structural)]
pub struct WasmMouseTracker {
    pub delta_x: i32,
    pub delta_y: i32,
}

impl WasmMouseTracker {
    /// A mouse at rest.
    pub fn new() -> (t: Self)
        ensures
            t.delta_x == 0 && t.delta_y == 0,
    {
        WasmMouseTracker { delta_x: 0, delta_y: 0 }
    }

    /// The mouse moved.
    pub fn on_move(&mut self, dx: i32, dy: i32)
        ensures
            final(self).delta_x == old(self).delta_x.wrapping_add(dx),
            final(self).delta_y == old(self).delta_y.wrapping_add(dy),
    {
        self.delta_x = self.delta_x.wrapping_add(dx);
        self.delta_y = self.delta_y.wrapping_add(dy);
    }

    /// The motion, which then starts again.
    pub fn get_delta_and_reset(&mut self) -> (delta: (i32, i32))
        ensures
            delta == (old(self).delta_x, old(self).delta_y),
            final(self).delta_x == 0 && final(self).delta_y == 0,
    {
        let delta: (i32, i32) = (self.delta_x, self.delta_y);
        self.delta_x = 0;
        self.delta_y = 0;
        delta
    }
}

/// Turns the view by what the mouse did, each step clamped.
pub fn process_mouse_events(
    view: &View3d,
    look_x: i64,
    look_y: i64,
    zoom: i64,
    dt: u64,
    config: &Config,
) -> (v: View3d)
    requires
        view.valid(),
        config.valid(),
        -LOOK_LIMIT <= look_x <= LOOK_LIMIT,
        -LOOK_LIMIT <= look_y <= LOOK_LIMIT,
        -LOOK_LIMIT <= zoom <= LOOK_LIMIT,
        dt <= FRAME_LIMIT,
    ensures
        v.valid(),
        v.yaw == less_turns(
            view.yaw + mouse_step(look_x as int, dt as int, config.look_sensitivity as int),
        ),
        v.pitch == at_least_at_most(
            view.pitch - mouse_step(look_y as int, dt as int, config.look_sensitivity as int),
            MIN_CAMERA_PITCH as int,
            MAX_CAMERA_PITCH as int,
        ),
        v.distance == at_least_at_most(
            view.distance - mouse_step(zoom as int, dt as int, config.zoom_sensitivity as int),
            config.min_camera_distance as int,
            config.max_camera_distance as int,
        ),
{
    View3d {
        yaw: take_off_turns(view.yaw + step_of(look_x, dt, config.look_sensitivity)),
        pitch: raise_and_lower(
            view.pitch - step_of(look_y, dt, config.look_sensitivity),
            MIN_CAMERA_PITCH,
            MAX_CAMERA_PITCH,
        ),
        distance: raise_and_lower(
            view.distance - step_of(zoom, dt, config.zoom_sensitivity),
            config.min_camera_distance,
            config.max_camera_distance,
        ),
    }
}

/// Where the camera stands, of which `cos` and `sin` are those of its pitch, in millionths.
pub fn update_camera(distance: i64, cos: i64, sin: i64) -> (at: Point)
    requires
        0 <= distance <= 1_000_000_000,
        -1_000_000 <= cos <= 1_000_000,
        -1_000_000 <= sin <= 1_000_000,
    ensures
        at.x == 0,
        at.y == share_of(cos as int, distance as int),
        at.z == share_of(-sin, distance as int),
{
    Point { x: 0, y: share_axis(cos, distance as u64), z: share_axis(-sin, distance as u64) }
}

} // verus!
