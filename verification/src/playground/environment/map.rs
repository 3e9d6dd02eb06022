//! The platform that the parts lie on.

use crate::geom::Point;
use vstd::prelude::*;

verus! {

/// The platform, in micrometres.
pub const PLATFORM_WIDTH: i64 = 50_000_000;

pub const PLATFORM_THICKNESS: i64 = 1_000_000;

/// The platform, and the camera that looks at its middle.
#[derive(Clone, Copy, Debug, PartialEq, Eq, Structural)]
pub struct Platform {
    pub half_sides: Point,
    pub camera: Point,
}

/// The platform, with the camera two widths away along each axis.
pub fn add_platform() -> (p: Platform)
    ensures
        p == (Platform {
            half_sides: Point { x: 25_000_000, y: 500_000, z: 25_000_000 },
            camera: Point { x: 100_000_000, y: 100_000_000, z: 100_000_000 },
        }),
{
    let away: i64 = PLATFORM_WIDTH * 2;
    Platform {
        half_sides: Point {
            x: PLATFORM_WIDTH / 2,
            y: PLATFORM_THICKNESS / 2,
            z: PLATFORM_WIDTH / 2,
        },
        camera: Point { x: away, y: away, z: away },
    }
}

/// Where the light hangs.
pub fn add_lighting() -> (at: Point)
    ensures
        at == (Point { x: 0, y: 8_000_000, z: 0 }),
{
    Point { x: 0, y: 8_000_000, z: 0 }
}

} // verus!
