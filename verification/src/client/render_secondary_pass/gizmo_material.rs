//! The material of everything that is drawn over the world.

use vstd::prelude::*;
use crate::client::colour::Hsla;

verus! {

/// A flat colour, drawn on top and blended.
#[derive(Clone, Copy, Debug, PartialEq, Eq, Structural)]
pub struct GizmoMaterial {
    pub color: Hsla,
}

impl From<Hsla> for GizmoMaterial {
    fn from(color: Hsla) -> (m: GizmoMaterial) {
        GizmoMaterial { color }
    }
}

impl vstd::std_specs::convert::FromSpecImpl<Hsla> for GizmoMaterial {
    open spec fn obeys_from_spec() -> bool {
        true
    }

    open spec fn from_spec(color: Hsla) -> GizmoMaterial {
        GizmoMaterial { color }
    }
}

} // verus!
