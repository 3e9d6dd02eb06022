//! The falling ash: one still mesh of many small quads, which the shader scatters around
//! the camera.

use crate::client::colour::Rgba;
use crate::geom::Point;
use vstd::prelude::*;

verus! {

/// How many flakes there are at once.
pub const NUM_FLAKES: usize = 4_000;

/// A corner of a flake's quad.
#[derive(Clone, Copy, Debug, PartialEq, Eq, Structural)]
pub struct Corner {
    pub u: u8,
    pub v: u8,
}

/// The mesh of the flakes.
pub struct FlakeMesh {
    /// The seed of each vertex's flake, in ten-thousandths.
    pub seeds: Vec<u32>,
    pub corners: Vec<Corner>,
    pub indices: Vec<u32>,
}

/// The seed of vertex `v`: the four corners of a flake share it.
pub open spec fn flake_seed(v: int) -> int {
    (v / 4) * 7_371 + 5_000
}

/// The corner of its quad that vertex `v` is.
pub open spec fn flake_corner(v: int) -> Corner {
    let c = v % 4;
    Corner {
        u: if c == 1 || c == 2 {
            1
        } else {
            0
        },
        v: if c >= 2 {
            1
        } else {
            0
        },
    }
}

/// Index `k`: two triangles for each flake.
pub open spec fn flake_index(k: int) -> int {
    let base = 4 * (k / 6);
    let c = k % 6;
    if c == 0 || c == 3 {
        base
    } else if c == 1 {
        base + 1
    } else if c == 2 || c == 4 {
        base + 2
    } else {
        base + 3
    }
}

/// Builds the mesh of the flakes.
pub fn build_flake_mesh() -> (mesh: FlakeMesh)
    ensures
        mesh.seeds@.len() == 4 * NUM_FLAKES,
        mesh.corners@.len() == 4 * NUM_FLAKES,
        mesh.indices@.len() == 6 * NUM_FLAKES,
        forall|v: int| 0 <= v < mesh.seeds@.len() ==> #[trigger] mesh.seeds@[v] == flake_seed(v),
        forall|v: int| 0 <= v < mesh.corners@.len() ==> #[trigger] mesh.corners@[v] == flake_corner(v),
        forall|k: int| 0 <= k < mesh.indices@.len() ==> #[trigger] mesh.indices@[k] == flake_index(k),
{
    let mut seeds: Vec<u32> = Vec::new();
    let mut corners: Vec<Corner> = Vec::new();
    let mut indices: Vec<u32> = Vec::new();
    let mut i: u32 = 0;
    while i < 4_000
        invariant
            i <= 4_000,
            seeds@.len() == 4 * i,
            corners@.len() == 4 * i,
            indices@.len() == 6 * i,
            forall|v: int| 0 <= v < seeds@.len() ==> #[trigger] seeds@[v] == flake_seed(v),
            forall|v: int| 0 <= v < corners@.len() ==> #[trigger] corners@[v] == flake_corner(v),
            forall|k: int| 0 <= k < indices@.len() ==> #[trigger] indices@[k] == flake_index(k),
        decreases 4_000 - i,
    {
        let seed: u32 = i * 7_371 + 5_000;
        seeds.push(seed);
        seeds.push(seed);
        seeds.push(seed);
        seeds.push(seed);
        corners.push(Corner { u: 0, v: 0 });
        corners.push(Corner { u: 1, v: 0 });
        corners.push(Corner { u: 1, v: 1 });
        corners.push(Corner { u: 0, v: 1 });
        let base: u32 = 4 * i;
        indices.push(base);
        indices.push(base + 1);
        indices.push(base + 2);
        indices.push(base);
        indices.push(base + 2);
        indices.push(base + 3);
        i = i + 1;
    }
    FlakeMesh { seeds, corners, indices }
}

/// Each flake has its own seed, and its two triangles use only its own four corners.
pub proof fn law_flakes_are_apart(k: int)
    requires
        0 <= k < 6 * NUM_FLAKES,
    ensures
        flake_index(k) / 4 == k / 6,
        0 <= flake_index(k) < 4 * NUM_FLAKES,
        forall|i: int, j: int|
            0 <= i < j ==> (#[trigger] flake_seed(4 * i)) != #[trigger] flake_seed(4 * j),
{
}

/// The widest platform that ash falls around, in micrometres.
pub const ASH_LIMIT: i64 = 0x1000_0000_0000;

/// What the shader gets of the ash: colours and rates in millionths, lengths in micrometres,
/// speeds in micrometres per second.
#[derive(Clone, Copy, Debug, PartialEq, Eq, Structural)]
pub struct AshParams {
    pub color: Rgba,
    /// The box around the camera that the flakes fall through.
    pub box_size: Point,
    pub size_min: u64,
    pub size_max: u64,
    pub fall_min: u64,
    pub fall_max: u64,
    pub sway_amp: u64,
    pub sway_freq: u64,
    pub spin_freq: u64,
    /// The distance from the camera below which a flake fades.
    pub near_fade: u64,
}

/// The ash around a platform of this width: twice as wide, and nearly as tall.
pub fn spawn_ash_field(platform_width: i64) -> (p: AshParams)
    requires
        0 <= platform_width <= ASH_LIMIT,
    ensures
        p == (AshParams {
            color: Rgba { r: 1_000_000, g: 1_000_000, b: 1_000_000, a: 850_000 },
            box_size: Point {
                x: (2 * platform_width) as i64,
                y: ((9 * platform_width) / 5) as i64,
                z: (2 * platform_width) as i64,
            },
            size_min: 20_000,
            size_max: 70_000,
            fall_min: 500_000,
            fall_max: 1_300_000,
            sway_amp: 350_000,
            sway_freq: 1_400_000,
            spin_freq: 7_000_000,
            near_fade: 1_500_000,
        }),
{
    AshParams {
        color: Rgba { r: 1_000_000, g: 1_000_000, b: 1_000_000, a: 850_000 },
        box_size: Point {
            x: 2 * platform_width,
            y: (9 * platform_width) / 5,
            z: 2 * platform_width,
        },
        size_min: 20_000,
        size_max: 70_000,
        fall_min: 500_000,
        fall_max: 1_300_000,
        sway_amp: 350_000,
        sway_freq: 1_400_000,
        spin_freq: 7_000_000,
        near_fade: 1_500_000,
    }
}

/// The four vertices of a flake share its seed and are the four corners of its quad, once around;
/// its two triangles are the first, second and third of them, and the first, third and fourth.
pub proof fn law_a_flake_is_a_quad(f: int)
    requires
        0 <= f,
    ensures
        flake_seed(4 * f) == flake_seed(4 * f + 1),
        flake_seed(4 * f) == flake_seed(4 * f + 2),
        flake_seed(4 * f) == flake_seed(4 * f + 3),
        flake_seed(4 * (f + 1)) - flake_seed(4 * f) == 7_371,
        flake_seed(0) == 5_000,
        flake_corner(4 * f) == (Corner { u: 0, v: 0 }),
        flake_corner(4 * f + 1) == (Corner { u: 1, v: 0 }),
        flake_corner(4 * f + 2) == (Corner { u: 1, v: 1 }),
        flake_corner(4 * f + 3) == (Corner { u: 0, v: 1 }),
        flake_index(6 * f) == 4 * f,
        flake_index(6 * f + 1) == 4 * f + 1,
        flake_index(6 * f + 2) == 4 * f + 2,
        flake_index(6 * f + 3) == 4 * f,
        flake_index(6 * f + 4) == 4 * f + 2,
        flake_index(6 * f + 5) == 4 * f + 3,
{
    assert((4 * f) / 4 == f && (4 * f + 1) / 4 == f && (4 * f + 2) / 4 == f && (4 * f + 3) / 4 == f);
    assert((4 * (f + 1)) / 4 == f + 1);
    assert((6 * f) / 6 == f && (6 * f + 1) / 6 == f && (6 * f + 2) / 6 == f);
    assert((6 * f + 3) / 6 == f && (6 * f + 4) / 6 == f && (6 * f + 5) / 6 == f);
}

} // verus!
