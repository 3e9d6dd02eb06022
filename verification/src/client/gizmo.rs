//! The gizmo of the held part as a widget of its own, in flat colours.

use vstd::prelude::*;
use super::colour::{rgb, Rgba};
use super::render_secondary_pass::{position_gizmo, Axis, GizmoPose, Held, HoldPointAt, Visibility};
use super::render_secondary_pass::gizmo_pose;

verus! {

/// The hub of the gizmo as it is spawned: hidden, and nowhere yet.
#[derive(Clone, Copy, Debug, PartialEq, Eq, Structural)]
pub struct TransformGizmoBundle {
    pub pose: Option<GizmoPose>,
    pub visibility: Visibility,
}

impl Default for TransformGizmoBundle {
    fn default() -> (b: TransformGizmoBundle)
        ensures
            b == (TransformGizmoBundle { pose: None, visibility: Visibility::Hidden }),
    {
        TransformGizmoBundle { pose: None, visibility: Visibility::Hidden }
    }
}

/// The flat colour of a piece: handles are paler than shafts.
pub fn flat_colour(axis: Axis, handle: bool) -> (c: Rgba)
    ensures
        c == match (axis, handle) {
            (Axis::X, false) => (Rgba { r: 1_000_000, g: 400_000, b: 400_000, a: 1_000_000 }),
            (Axis::Y, false) => (Rgba { r: 400_000, g: 1_000_000, b: 400_000, a: 1_000_000 }),
            (Axis::Z, false) => (Rgba { r: 400_000, g: 500_000, b: 1_000_000, a: 1_000_000 }),
            (Axis::X, true) => (Rgba { r: 1_000_000, g: 700_000, b: 700_000, a: 1_000_000 }),
            (Axis::Y, true) => (Rgba { r: 700_000, g: 1_000_000, b: 700_000, a: 1_000_000 }),
            (Axis::Z, true) => (Rgba { r: 700_000, g: 700_000, b: 1_000_000, a: 1_000_000 }),
        },
{
    match (axis, handle) {
        (Axis::X, false) => rgb(1_000_000, 400_000, 400_000),
        (Axis::Y, false) => rgb(400_000, 1_000_000, 400_000),
        (Axis::Z, false) => rgb(400_000, 500_000, 1_000_000),
        (Axis::X, true) => rgb(1_000_000, 700_000, 700_000),
        (Axis::Y, true) => rgb(700_000, 1_000_000, 700_000),
        (Axis::Z, true) => rgb(700_000, 700_000, 1_000_000),
    }
}

/// Where the gizmo of a part that is held here belongs.
pub fn position_held_gizmo(
    held: Option<Held>,
    points: &[HoldPointAt],
    hub: &mut Visibility,
    pieces: &mut Vec<Visibility>,
) -> (pose: Option<GizmoPose>)
    ensures
        pose == gizmo_pose(held, points@, false, None, None),
        *final(hub) == if pose is Some {
            Visibility::Visible
        } else {
            Visibility::Hidden
        },
        final(pieces)@.len() == old(pieces)@.len(),
        forall|i: int| 0 <= i < final(pieces)@.len() ==> #[trigger] final(pieces)@[i] == *final(hub),
{
    position_gizmo(held, points, false, None, None, hub, pieces)
}

} // verus!
