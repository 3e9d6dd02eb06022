//! Black rock with magma in its valleys.

use crate::client::colour::{rgb, Rgba};
use crate::geom::Point;
use vstd::prelude::*;

verus! {

/// The rock and what flows in it. Colours and shares in millionths, lengths in micrometres,
/// speeds in micrometres per second.
#[derive(Clone, Copy, Debug, PartialEq, Eq, Structural)]
pub struct MagmaParams {
    pub rock_color: Rgba,
    pub magma_color: Rgba,
    pub hot_color: Rgba,
    /// The size of a clump of rock, and of a channel.
    pub rock_size: u64,
    pub flow_size: u64,
    pub flow_speed: u64,
    pub warp: u64,
    /// The band of the noise that is molten.
    pub rivulet_lo: u32,
    pub rivulet_hi: u32,
    pub emissive_strength: u32,
    pub flicker: u32,
    /// Where the room stands, so that the noise stays on the ground.
    pub frame_offset: Point,
}

impl MagmaParams {
    /// The planet's rock.
    pub open spec fn standard() -> MagmaParams {
        MagmaParams {
            rock_color: Rgba { r: 15_000, g: 12_000, b: 12_000, a: 1_000_000 },
            magma_color: Rgba { r: 850_000, g: 200_000, b: 30_000, a: 1_000_000 },
            hot_color: Rgba { r: 1_000_000, g: 650_000, b: 250_000, a: 1_000_000 },
            rock_size: 7_000_000,
            flow_size: 14_000_000,
            flow_speed: 350_000,
            warp: 6_000_000,
            rivulet_lo: 720_000,
            rivulet_hi: 950_000,
            emissive_strength: 2_200_000,
            flicker: 250_000,
            frame_offset: Point { x: 0, y: 0, z: 0 },
        }
    }
}

impl Default for MagmaParams {
    fn default() -> (m: Self)
        ensures
            m == MagmaParams::standard(),
    {
        MagmaParams {
            rock_color: rgb(15_000, 12_000, 12_000),
            magma_color: rgb(850_000, 200_000, 30_000),
            hot_color: rgb(1_000_000, 650_000, 250_000),
            rock_size: 7_000_000,
            flow_size: 14_000_000,
            flow_speed: 350_000,
            warp: 6_000_000,
            rivulet_lo: 720_000,
            rivulet_hi: 950_000,
            emissive_strength: 2_200_000,
            flicker: 250_000,
            frame_offset: Point { x: 0, y: 0, z: 0 },
        }
    }
}

impl MagmaParams {
    /// The offset that the noise is to be sampled with: the room's own, all of it.
    pub fn frame_target(&self, visual_offset: &Point) -> (offset: Point)
        ensures
            offset == *visual_offset,
    {
        *visual_offset
    }

    /// The offset that the noise is sampled with.
    pub fn stored_frame(&self) -> (offset: Point)
        ensures
            offset == self.frame_offset,
    {
        self.frame_offset
    }

    pub fn set_stored_frame(&mut self, value: Point)
        ensures
            *final(self) == (MagmaParams { frame_offset: value, ..*old(self) }),
    {
        self.frame_offset = value;
    }
}

/// The rock itself: rough, without metal and with hardly any sheen. The haze before it is
/// part of its own colour.
#[derive(Clone, Copy, Debug, PartialEq, Eq, Structural)]
pub struct MagmaMaterial {
    pub roughness: u32,
    pub metallic: u32,
    pub reflectance: u32,
    pub fog_enabled: bool,
    pub params: MagmaParams,
}

/// The material of the planet and its cliffs.
pub fn magma_material() -> (m: MagmaMaterial)
    ensures
        m == (MagmaMaterial {
            roughness: 1_000_000,
            metallic: 0,
            reflectance: 20_000,
            fog_enabled: false,
            params: MagmaParams::standard(),
        }),
{
    MagmaMaterial {
        roughness: 1_000_000,
        metallic: 0,
        reflectance: 20_000,
        fog_enabled: false,
        params: MagmaParams::default(),
    }
}

/// The magma glows over black rock: every channel of the rock lies under the magma's, and that
/// under the one of its hottest spots. The band that is molten is a band, it flows, and the noise
/// starts where the room does.
pub proof fn law_the_magma_glows_over_the_rock()
    ensures
        ({
            let m = MagmaParams::standard();
            &&& m.rock_color.r < m.magma_color.r < m.hot_color.r
            &&& m.rock_color.g < m.magma_color.g < m.hot_color.g
            &&& m.rock_color.b < m.magma_color.b < m.hot_color.b
            &&& m.hot_color.r > m.hot_color.g > m.hot_color.b
            &&& m.magma_color.r > m.magma_color.g > m.magma_color.b
            &&& m.rivulet_lo < m.rivulet_hi < 1_000_000
            &&& m.flow_size == 2 * m.rock_size
            &&& 0 < m.flow_speed && m.warp < m.rock_size
            &&& m.frame_offset.x == 0 && m.frame_offset.y == 0 && m.frame_offset.z == 0
        }),
{
}

} // verus!
