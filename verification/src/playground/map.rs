//! The bare platform.

use crate::geom::Point;
use vstd::prelude::*;

verus! {

/// The platform, in micrometres.
pub const PLATFORM_WIDTH: i64 = 50_000_000;

pub const PLATFORM_THICKNESS: i64 = 100_000;

/// Half the sides of the platform's box.
pub fn add_platform() -> (half: Point)
    ensures
        half == (Point {
            x: (PLATFORM_WIDTH / 2) as i64,
            y: (PLATFORM_THICKNESS / 2) as i64,
            z: (PLATFORM_WIDTH / 2) as i64,
        }),
{
    Point { x: PLATFORM_WIDTH / 2, y: PLATFORM_THICKNESS / 2, z: PLATFORM_WIDTH / 2 }
}

/// Where the light hangs.
pub fn add_lighting() -> (at: Point)
    ensures
        at == (Point { x: 0, y: 8_000_000, z: 0 }),
{
    Point { x: 0, y: 8_000_000, z: 0 }
}

} // verus!
