//! The gizmo together with the joints and the delete zone, in flat colours.

use vstd::prelude::*;
use super::colour::{rgb, Rgba};
use super::render_secondary_pass::{delete_zone_visibility, GizmoPose, Handler, JointKind, Visibility};

verus! {

/// The hub of the gizmo as it is spawned: hidden, and nowhere yet.
#[derive(Clone, Copy, Debug, PartialEq, Eq, Structural)]
pub struct TransformGizmoBundle {
    pub pose: Option<GizmoPose>,
    pub visibility: Visibility,
}

impl Default for TransformGizmoBundle {
    fn default() -> (b: TransformGizmoBundle)
        ensures
            b == (TransformGizmoBundle { pose: None, visibility: Visibility::Hidden }),
    {
        TransformGizmoBundle { pose: None, visibility: Visibility::Hidden }
    }
}

/// The colour of a joint: yellow for a candidate, blue for a real one, red for one about
/// to be deleted.
pub fn attach_point_colour(kind: JointKind) -> (c: Rgba)
    ensures
        c == match kind {
            JointKind::Potential => (Rgba { r: 1_000_000, g: 1_000_000, b: 200_000, a: 1_000_000 }),
            JointKind::Existing => (Rgba { r: 400_000, g: 400_000, b: 1_000_000, a: 1_000_000 }),
            JointKind::Predelete => (Rgba { r: 1_000_000, g: 400_000, b: 400_000, a: 1_000_000 }),
        },
{
    match kind {
        JointKind::Potential => rgb(1_000_000, 1_000_000, 200_000),
        JointKind::Existing => rgb(400_000, 400_000, 1_000_000),
        JointKind::Predelete => rgb(1_000_000, 400_000, 400_000),
    }
}

/// Shows the delete zone while a joint is being deleted with empty hands.
pub fn deleting_zone_visibility(
    holding: bool,
    deleting: bool,
    has_hold_point: bool,
    zone: &mut Visibility,
)
    ensures
        *final(zone) == if !has_hold_point {
            *old(zone)
        } else if deleting && !holding {
            Visibility::Visible
        } else {
            Visibility::Hidden
        },
{
    delete_zone_visibility(Some(Handler { holding, modifying: deleting, has_hold_point }), zone);
}

} // verus!
