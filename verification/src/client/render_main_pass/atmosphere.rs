//! The air: haze, ash and stars, all by the one share of air that is left at a height, so
//! that they fade together.

use vstd::prelude::*;
use super::rock::eased;

verus! {

/// The density of the haze on the ground, in thousand-millionths per metre.
pub const MAX_FOG_DENSITY: u64 = 2_800_000;

/// The dome of stars: how much of them shows, in millionths.
#[derive(Clone, Copy, Debug, PartialEq, Eq, Structural)]
pub struct StarfieldMaterial {
    pub visibility: u32,
}

/// The air as it is shown.
#[derive(Clone, Copy, Debug, PartialEq, Eq, Structural)]
pub struct Air {
    /// In thousand-millionths per metre.
    pub fog_density: u64,
    /// Whether the camera has no haze yet, so that it has to be added.
    pub add_fog: bool,
    /// How many of the flakes fall, in millionths.
    pub ash: u32,
    pub stars: StarfieldMaterial,
}

/// How much of the stars shows through a share of air.
pub open spec fn starlight(air: int) -> int {
    eased(
        if air > 1_000_000 {
            0
        } else {
            1_000_000 - air
        },
    )
}

/// The air at a camera above which the share `air` of it is left, in millionths. Nothing
/// without a camera.
pub fn update_atmosphere(air: Option<u32>, has_fog: bool) -> (shown: Option<Air>)
    ensures
        shown == match air {
            Some(a) => Some(
                Air {
                    fog_density: ((MAX_FOG_DENSITY * a) / 1_000_000) as u64,
                    add_fog: !has_fog,
                    ash: a,
                    stars: StarfieldMaterial { visibility: starlight(a as int) as u32 },
                },
            ),
            None => None,
        },
{
    match air {
        None => None,
        Some(a) => {
            let t: u64 = if a > 1_000_000 {
                0
            } else {
                1_000_000 - a as u64
            };
            proof {
                super::rock::lemma_eased(t as int);
                assert(0 <= t * t <= 1_000_000_000_000) by (nonlinear_arith)
                    requires
                        0 <= t <= 1_000_000,
                ;
            }
            let visibility: u64 = t * t * (3_000_000 - 2 * t) / 1_000_000_000_000;
            Some(
                Air {
                    fog_density: (2_800_000 * a as u64) / 1_000_000,
                    add_fog: !has_fog,
                    ash: a,
                    stars: StarfieldMaterial { visibility: visibility as u32 },
                },
            )
        },
    }
}

/// The thinner the air, the more stars show: none through all of it, and all in space.
pub proof fn law_stars_come_out_as_the_air_thins(thin: int, thick: int)
    requires
        0 <= thin <= thick,
    ensures
        starlight(thick) <= starlight(thin),
        starlight(1_000_000) == 0,
        starlight(0) == 1_000_000,
{
    let (a, b) = (
        if thick > 1_000_000 {
            0
        } else {
            1_000_000 - thick
        },
        if thin > 1_000_000 {
            0
        } else {
            1_000_000 - thin
        },
    );
    assert(0 <= a <= b <= 1_000_000);
    lemma_easing_grows(a, b);
    assert(eased(0) == 0) by {
        assert(0 * 0 * 3_000_000 == 0) by (nonlinear_arith);
    }
    assert(eased(1_000_000) == 1_000_000) by {
        assert(1_000_000 * 1_000_000 * 1_000_000 == 1_000_000_000_000_000_000) by (nonlinear_arith);
    }
}

proof fn lemma_easing_grows(a: int, b: int)
    requires
        0 <= a <= b <= 1_000_000,
    ensures
        eased(a) <= eased(b),
{
    let (x, y) = (a * a * (3_000_000 - 2 * a), b * b * (3_000_000 - 2 * b));
    let slope = 3_000_000 * (a + b) - 2 * (a * a + a * b + b * b);
    assert(y - x == (b - a) * slope) by (nonlinear_arith)
        requires
            x == a * a * (3_000_000 - 2 * a),
            y == b * b * (3_000_000 - 2 * b),
            slope == 3_000_000 * (a + b) - 2 * (a * a + a * b + b * b),
    ;
    assert(slope >= 0) by (nonlinear_arith)
        requires
            slope == 3_000_000 * (a + b) - 2 * (a * a + a * b + b * b),
            0 <= a <= b <= 1_000_000,
    {
        assert(a * a <= 1_000_000 * a);
        assert(b * b <= 1_000_000 * b);
        assert(a * b <= 1_000_000 * a);
    }
    assert((b - a) * slope >= 0) by (nonlinear_arith)
        requires
            b - a >= 0,
            slope >= 0,
    ;
    assert(x / 1_000_000_000_000 <= y / 1_000_000_000_000);
}

} // verus!
