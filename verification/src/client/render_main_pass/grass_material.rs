//! The grass: what its shader gets.

use crate::client::colour::{rgb, Rgba};
use vstd::prelude::*;

verus! {

/// What the shader gets of the grass: colours and shares in millionths, lengths in
/// micrometres.
#[derive(Clone, Copy, Debug, PartialEq, Eq, Structural)]
pub struct GrassParams {
    pub base_color: Rgba,
    pub highlight_color: Rgba,
    pub dry_color: Rgba,
    /// How far the mean colour lies on the way from the base to the highlight, in linear
    /// light.
    pub mean_share: u32,
    /// The size of a clump, of a blade and of a dry patch.
    pub clump_size: u64,
    pub blade_size: u64,
    pub dry_patch_size: u64,
    pub turf_depth: u64,
    pub threshold: u32,
    pub blade_mix: u32,
    pub dry_strength: u32,
    /// From where on single blades fade into the mean colour, and where they are gone.
    pub fade_start: u64,
    pub fade_end: u64,
}

impl GrassParams {
    /// The grass of the platform.
    pub open spec fn standard() -> GrassParams {
        GrassParams {
            base_color: Rgba { r: 45_000, g: 150_000, b: 35_000, a: 1_000_000 },
            highlight_color: Rgba { r: 330_000, g: 550_000, b: 180_000, a: 1_000_000 },
            dry_color: Rgba { r: 400_000, g: 480_000, b: 170_000, a: 1_000_000 },
            mean_share: 500_000,
            clump_size: 500_000,
            blade_size: 35_000,
            dry_patch_size: 7_000_000,
            turf_depth: 60_000,
            threshold: 680_000,
            blade_mix: 700_000,
            dry_strength: 350_000,
            fade_start: 25_000_000,
            fade_end: 55_000_000,
        }
    }
}

impl Default for GrassParams {
    fn default() -> (p: Self)
        ensures
            p == GrassParams::standard(),
    {
        GrassParams {
            base_color: rgb(45_000, 150_000, 35_000),
            highlight_color: rgb(330_000, 550_000, 180_000),
            dry_color: rgb(400_000, 480_000, 170_000),
            mean_share: 500_000,
            clump_size: 500_000,
            blade_size: 35_000,
            dry_patch_size: 7_000_000,
            turf_depth: 60_000,
            threshold: 680_000,
            blade_mix: 700_000,
            dry_strength: 350_000,
            fade_start: 25_000_000,
            fade_end: 55_000_000,
        }
    }
}

/// The material of the ground: rough, with hardly any sheen.
#[derive(Clone, Copy, Debug, PartialEq, Eq, Structural)]
pub struct GrassMaterial {
    pub roughness: u32,
    pub reflectance: u32,
    pub params: GrassParams,
}

/// The material that the ground is given.
pub fn assign_grass() -> (m: GrassMaterial)
    ensures
        m == (GrassMaterial {
            roughness: 1_000_000,
            reflectance: 50_000,
            params: GrassParams::standard(),
        }),
{
    GrassMaterial { roughness: 1_000_000, reflectance: 50_000, params: GrassParams::default() }
}

/// The grass is green, its highlight lighter than its base, and dry patches the reddest of the
/// three; blades are finer than clumps, and clumps than dry patches; blades fade before they are
/// gone.
pub proof fn law_the_grass_is_green()
    ensures
        ({
            let g = GrassParams::standard();
            &&& g.base_color.g > g.base_color.r && g.base_color.g > g.base_color.b
            &&& g.highlight_color.g > g.highlight_color.r && g.highlight_color.g
                > g.highlight_color.b
            &&& g.base_color.r < g.highlight_color.r && g.base_color.g < g.highlight_color.g
                && g.base_color.b < g.highlight_color.b
            &&& g.dry_color.r > g.highlight_color.r && g.dry_color.g > g.dry_color.r
            &&& g.blade_size < g.turf_depth < g.clump_size < g.dry_patch_size
            &&& g.fade_start < g.fade_end
            &&& 2 * g.mean_share == 1_000_000
        }),
{
}

} // verus!
