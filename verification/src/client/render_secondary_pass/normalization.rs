//! What keeps its size on the screen.

use vstd::prelude::*;
use crate::geom::floor_div;

verus! {

/// Marks what is scaled by its distance from the camera.
#[derive(Clone, Copy, Debug, PartialEq, Eq, Structural)]
pub struct Normalize3d;

/// The scale, in millionths, of something `depth` micrometres in front of the camera: a
/// fiftieth of the distance in metres.
pub open spec fn scale_at(depth: int) -> int {
    depth / 50
}

/// The scales of the marked things, each by its depth in front of the last camera. `None`
/// while there is no camera: a multiplayer avatar takes its camera with it when the
/// connection drops, and the next frame has another.
pub fn normalize(has_camera: bool, depths: &[i64]) -> (scales: Option<Vec<i64>>)
    ensures
        scales is Some <==> has_camera,
        scales is Some ==> scales->0@ == depths@.map_values(|d: i64| scale_at(d as int) as i64),
{
    if !has_camera {
        return None;
    }
    let mut scales: Vec<i64> = Vec::new();
    let mut i: usize = 0;
    while i < depths.len()
        invariant
            i <= depths.len(),
            scales@.len() == i,
            forall|k: int| 0 <= k < i ==> #[trigger] scales@[k] == scale_at(depths@[k] as int) as i64,
        decreases depths.len() - i,
    {
        let d: i64 = depths[i];
        scales.push(floor_div(d as i128, 50) as i64);
        i = i + 1;
    }
    assert(scales@ =~= depths@.map_values(|d: i64| scale_at(d as int) as i64));
    Some(scales)
}

/// What is fifty times as far is drawn at the scale of its distance: a thing fifty metres off
/// has its own size, and one twice as far twice that.
pub proof fn law_the_scale_goes_by_the_depth(depth: int)
    ensures
        50 * scale_at(depth) <= depth < 50 * scale_at(depth) + 50,
        scale_at(50_000_000) == 1_000_000,
{
}

} // verus!
