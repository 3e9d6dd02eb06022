//! The buoyancy simulator: a hollow body dropped into a tank of water.
//!
//! Lengths are in micrometres, densities in grams per cubic metre, and ratios in
//! millionths.

use vstd::prelude::*;
use self::body::MassKey;
use self::body::{MAX_HULL_RES, MAX_VOXEL_RES};
use self::hydro::Shape;
use self::hydro::SHAPE_LIMIT;

pub mod body;
pub mod centre;
pub mod controls;
pub mod drag;
pub mod forces;
pub mod form;
pub mod hydro;
pub mod impact;
pub mod panel;
pub mod pieces;
pub mod reals;
pub mod rising;
pub mod share;
pub mod solid;
pub mod tide;
pub mod turned;
pub mod volume;

verus! {

/// The height of the water surface.
pub const WATER_LEVEL: i64 = 0;

/// The width of the tank.
pub const WATER_SIZE: i64 = 20_000_000;

/// The depth of the water.
pub const WATER_DEPTH: i64 = 6_000_000;

/// The height from which the body is dropped.
pub const SPAWN_HEIGHT: i64 = 5_000_000;

/// Which computation drives the body.
#[derive(Clone, Copy, Debug, PartialEq, Eq, Structural)]
pub enum Method {
    VoxelGrid,
    SurfacePressure,
    ClippedVolume,
}

/// What the panel's sliders and boxes set.
#[derive(Clone, Copy, Debug, PartialEq, Eq, Structural)]
pub struct SimParams {
    /// Of the shell's material, in grams per cubic metre.
    pub density: u64,
    /// Tilt off the vertical after a reset, in millionths of a degree.
    pub start_angle: u32,
    pub shape: Shape,
    /// Thickness of the shell's wall.
    pub wall: i64,
    pub method: Method,
    /// Cells along the body's longest side.
    pub voxel_res: u32,
    /// Segments of the hull around its axis.
    pub hull_res: u32,
    /// Viscous drag, for every method.
    pub drag_on: bool,
    pub drag_coeff: u32,
    /// Drag on the flow normal to a face, for surface pressure.
    pub pressure_drag_on: bool,
    pub pressure_drag_coeff: u32,
    /// The impact of entering the water, for surface pressure.
    pub slamming_on: bool,
    /// The violence at which the impact saturates, in micrometres per second squared.
    pub gamma_max: u64,
}

/// The bands of the wall of a hull of that resolution.
pub open spec fn rings_at(res: u32) -> int {
    if res / 3 < 2 {
        2
    } else {
        (res / 3) as int
    }
}

/// The segments around its axis of a hull of that resolution.
pub open spec fn segments_at(res: u32) -> int {
    if res < 3 {
        3
    } else {
        res as int
    }
}

impl SimParams {
    /// Whether the body can be built and voxelised.
    pub open spec fn valid(self) -> bool {
        &&& self.shape.valid()
        &&& 0 <= self.wall <= SHAPE_LIMIT
        &&& 1 <= self.voxel_res <= MAX_VOXEL_RES
        &&& self.hull_res <= MAX_HULL_RES
    }

    /// The bands of the hull's wall.
    pub open spec fn rings(self) -> int {
        rings_at(self.hull_res)
    }

    /// The segments of the hull around its axis.
    pub open spec fn segments(self) -> int {
        segments_at(self.hull_res)
    }

    pub open spec fn mass_key(self) -> MassKey {
        MassKey { shape: self.shape, wall: self.wall, density: self.density }
    }

    /// The segments of the hull around its axis: its resolution, and at least three.
    pub fn hull_segments(&self) -> (segments: usize)
        ensures
            segments == self.segments(),
    {
        if self.hull_res < 3 {
            3
        } else {
            self.hull_res as usize
        }
    }

    /// The bands of the hull's wall: a third of its segments, and at least two.
    pub fn hull_rings(&self) -> (rings: usize)
        ensures
            rings == self.rings(),
    {
        let rings: usize = (self.hull_res / 3) as usize;
        if rings < 2 {
            2
        } else {
            rings
        }
    }
}

impl Default for SimParams {
    /// A steel can with walls of a centimetre, on the voxel grid.
    fn default() -> (p: SimParams)
        ensures
            p == (SimParams {
                density: 7_850_000,
                start_angle: 0,
                shape: Shape { r_top: 1_200_000, r_bottom: 1_200_000, length: 3_200_000 },
                wall: 10_000,
                method: Method::VoxelGrid,
                voxel_res: 12,
                hull_res: 24,
                drag_on: true,
                drag_coeff: 1_000_000,
                pressure_drag_on: true,
                pressure_drag_coeff: 1_000_000,
                slamming_on: false,
                gamma_max: 20_000_000,
            }),
            p.valid(),
    {
        SimParams {
            density: 7_850_000,
            start_angle: 0,
            shape: Shape { r_top: 1_200_000, r_bottom: 1_200_000, length: 3_200_000 },
            wall: 10_000,
            method: Method::VoxelGrid,
            voxel_res: 12,
            hull_res: 24,
            drag_on: true,
            drag_coeff: 1_000_000,
            pressure_drag_on: true,
            pressure_drag_coeff: 1_000_000,
            slamming_on: false,
            gamma_max: 20_000_000,
        }
    }
}

} // verus!
