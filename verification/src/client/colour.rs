//! Colours, in millionths.

use vstd::prelude::*;

verus! {

/// A colour by its red, green, blue and opacity.
#[derive(Clone, Copy, Debug, PartialEq, Eq, Structural)]
pub struct Rgba {
    pub r: u32,
    pub g: u32,
    pub b: u32,
    pub a: u32,
}

/// A colour by its hue, in degrees, and its saturation, lightness and opacity.
#[derive(Clone, Copy, Debug, PartialEq, Eq, Structural)]
pub struct Hsla {
    pub hue: u32,
    pub saturation: u32,
    pub lightness: u32,
    pub alpha: u32,
}

/// An opaque colour.
pub fn rgb(r: u32, g: u32, b: u32) -> (c: Rgba)
    ensures
        c == (Rgba { r, g, b, a: 1_000_000 }),
{
    Rgba { r, g, b, a: 1_000_000 }
}

} // verus!
