//! The metal of the parts. Everything follows from a part's seed, so that it looks the
//! same to everybody.

use vstd::prelude::*;
use crate::client::colour::{rgb, Rgba};
use crate::client::random::{next_between, next_unit};
use crate::client::random::{between, state_after, unit_at};

verus! {

/// The finish of a part's surface.
#[derive(Clone, Copy, Debug, PartialEq, Eq, Structural)]
pub enum Finish {
    /// Straight grinding lines.
    Brushed,
    /// Polished in circles around a centre of the part's own.
    Circular,
    /// Zinc crystals of many brightnesses.
    Galvanized,
    /// Painted rings: the body of a rocket.
    Striped,
}

impl Finish {
    /// The number by which the shader knows the finish.
    pub open spec fn index(self) -> u32 {
        match self {
            Finish::Brushed => 0,
            Finish::Circular => 1,
            Finish::Galvanized => 2,
            Finish::Striped => 3,
        }
    }

    /// The number by which the shader knows the finish.
    pub fn shader_index(&self) -> (n: u32)
        ensures
            n == self.index(),
    {
        match self {
            Finish::Brushed => 0,
            Finish::Circular => 1,
            Finish::Galvanized => 2,
            Finish::Striped => 3,
        }
    }
}

/// The finish that the share `k`, in parts of 2^24, stands for: four tenths are brushed
/// and three tenths are circular.
pub open spec fn finish_of(k: int) -> Finish {
    if k < 6_710_887 {
        Finish::Brushed
    } else if k < 11_744_051 {
        Finish::Circular
    } else {
        Finish::Galvanized
    }
}

/// The metal that the share `k` stands for, by its colour in millionths. The common
/// structural metals come up most.
pub open spec fn metal_of(k: int) -> (int, int, int) {
    if k < 3_690_988 {
        // Steel.
        (560_000, 570_000, 580_000)
    } else if k < 6_207_570 {
        // Gunmetal.
        (350_000, 360_000, 380_000)
    } else if k < 8_556_381 {
        // Aluminium.
        (910_000, 920_000, 920_000)
    } else if k < 10_234_102 {
        // Titanium.
        (620_000, 580_000, 540_000)
    } else if k < 11_744_052 {
        // Nickel.
        (660_000, 610_000, 530_000)
    } else if k < 13_421_773 {
        // Copper.
        (950_000, 640_000, 540_000)
    } else if k < 14_931_723 {
        // Brass.
        (910_000, 780_000, 420_000)
    } else if k < 16_106_127 {
        // Bronze.
        (800_000, 580_000, 360_000)
    } else {
        // Gold.
        (1_000_000, 770_000, 340_000)
    }
}

/// A channel brightened by `l` millionths, at most full.
pub open spec fn brightened(c: int, l: int) -> int {
    let v = (c * l) / 1_000_000;
    if v > 1_000_000 {
        1_000_000
    } else {
        v
    }
}

/// The colour of a metal at brightness `l`.
pub open spec fn tint_of(metal: (int, int, int), l: int) -> Rgba {
    Rgba {
        r: brightened(metal.0, l) as u32,
        g: brightened(metal.1, l) as u32,
        b: brightened(metal.2, l) as u32,
        a: 1_000_000,
    }
}

/// The finish of a part: the first share of its stream.
pub open spec fn seed_finish(seed: u32) -> Finish {
    finish_of(unit_at(seed as u64, 0) as int)
}

/// The colour of a part. A galvanized one is always zinc, so that no metal is drawn for
/// it.
pub open spec fn seed_tint(seed: u32) -> Rgba {
    let s = seed as u64;
    if seed_finish(seed) is Galvanized {
        tint_of((720_000, 740_000, 770_000), between(unit_at(s, 1) as int, 850_000, 1_150_000))
    } else {
        tint_of(
            metal_of(unit_at(s, 1) as int),
            between(unit_at(s, 2) as int, 850_000, 1_150_000),
        )
    }
}

fn metal_at(k: u32) -> (m: (i64, i64, i64))
    ensures
        (m.0 as int, m.1 as int, m.2 as int) == metal_of(k as int),
        0 <= m.0 <= 1_000_000,
        0 <= m.1 <= 1_000_000,
        0 <= m.2 <= 1_000_000,
{
    if k < 3_690_988 {
        (560_000, 570_000, 580_000)
    } else if k < 6_207_570 {
        (350_000, 360_000, 380_000)
    } else if k < 8_556_381 {
        (910_000, 920_000, 920_000)
    } else if k < 10_234_102 {
        (620_000, 580_000, 540_000)
    } else if k < 11_744_052 {
        (660_000, 610_000, 530_000)
    } else if k < 13_421_773 {
        (950_000, 640_000, 540_000)
    } else if k < 14_931_723 {
        (910_000, 780_000, 420_000)
    } else if k < 16_106_127 {
        (800_000, 580_000, 360_000)
    } else {
        (1_000_000, 770_000, 340_000)
    }
}

fn brighten(c: i64, l: i64) -> (v: u32)
    requires
        0 <= c <= 1_000_000,
        0 <= l <= 1_150_000,
    ensures
        v == brightened(c as int, l as int),
{
    assert(0 <= c * l <= 1_150_000_000_000) by (nonlinear_arith)
        requires
            0 <= c <= 1_000_000,
            0 <= l <= 1_150_000,
    ;
    let v: i64 = c * l / 1_000_000;
    if v > 1_000_000 {
        1_000_000
    } else {
        v as u32
    }
}

/// The finish and the colour of a part, from its seed alone. They have a stream of their
/// own, so that a part's colour can be found again without the rest.
pub fn finish_and_tint(seed: u32) -> (r: (Finish, Rgba))
    ensures
        r.0 == seed_finish(seed),
        r.1 == seed_tint(seed),
        !(r.0 is Striped),
{
    let mut s: u64 = seed as u64;
    proof {
        reveal_with_fuel(state_after, 3);
    }
    let f: u32 = next_unit(&mut s);
    let finish: Finish = if f < 6_710_887 {
        Finish::Brushed
    } else if f < 11_744_051 {
        Finish::Circular
    } else {
        Finish::Galvanized
    };
    let (r, g, b): (i64, i64, i64) = if finish == Finish::Galvanized {
        (720_000, 740_000, 770_000)
    } else {
        metal_at(next_unit(&mut s))
    };
    let l: i64 = next_between(&mut s, 850_000, 1_150_000);
    (finish, rgb(brighten(r, l), brighten(g, l), brighten(b, l)))
}

/// The colour of a part, from its seed: what it goes back to when a highlight ends.
pub fn metal_tint(seed: u32) -> (c: Rgba)
    ensures
        c == seed_tint(seed),
{
    finish_and_tint(seed).1
}

/// What the shader gets of a part, in millionths; the angle is in microradians.
#[derive(Clone, Copy, Debug, PartialEq, Eq, Structural)]
pub struct MetalParams {
    pub angle: i64,
    pub brush_freq: i64,
    pub brush_strength: i64,
    pub flake_freq: i64,
    pub flake_strength: i64,
    pub scratch_strength: i64,
    pub noise_offset: i64,
    pub center_x: i64,
    pub center_y: i64,
    pub finish: u32,
}

/// The material of a part.
#[derive(Clone, Copy, Debug, PartialEq, Eq, Structural)]
pub struct MetalMaterial {
    pub base_color: Rgba,
    pub metallic: i64,
    pub roughness: i64,
    pub params: MetalParams,
}

pub open spec fn not_negative(v: int) -> int {
    if v < 0 {
        0
    } else {
        v
    }
}

/// The density and the strength of a finish's pattern: fine lines, fine rings, or coarse
/// and strong crystals.
pub open spec fn pattern(finish: Finish, freq: int, strength: int) -> (int, int) {
    match finish {
        Finish::Brushed => (
            between(freq, 120_000_000, 300_000_000),
            between(strength, 50_000, 250_000),
        ),
        Finish::Circular => (
            between(freq, 110_000_000, 240_000_000),
            between(strength, 60_000, 200_000),
        ),
        _ => (between(freq, 6_000_000, 16_000_000), between(strength, 250_000, 500_000)),
    }
}

/// The stream of a part's texture: apart from that of its colour, so that neither shifts
/// the other.
pub open spec fn texture_state(seed: u32) -> u64 {
    (seed ^ 0xA511_05ED) as u64
}

/// The material of a part.
pub open spec fn seed_material(seed: u32) -> MetalMaterial {
    let s = texture_state(seed);
    let k = |n: nat| unit_at(s, n) as int;
    let p = pattern(seed_finish(seed), k(1), k(2));
    MetalMaterial {
        base_color: seed_tint(seed),
        metallic: between(k(3), 450_000, 850_000) as i64,
        roughness: between(k(4), 120_000, 400_000) as i64,
        params: MetalParams {
            angle: between(k(0), 0, 6_283_185) as i64,
            brush_freq: p.0 as i64,
            brush_strength: p.1 as i64,
            flake_freq: between(k(5), 120_000_000, 250_000_000) as i64,
            flake_strength: not_negative(between(k(6), -500_000, 500_000)) as i64,
            scratch_strength: not_negative(between(k(7), -300_000, 700_000)) as i64,
            noise_offset: between(k(8), 0, 64_000_000) as i64,
            center_x: between(k(9), 250_000, 750_000) as i64,
            center_y: between(k(10), 250_000, 750_000) as i64,
            finish: seed_finish(seed).index(),
        },
    }
}

/// The material of a part, from its seed: the same on every client and platform.
pub fn metal_material(seed: u32) -> (m: MetalMaterial)
    ensures
        m == seed_material(seed),
{
    let (finish, base_color): (Finish, Rgba) = finish_and_tint(seed);
    let mut s: u64 = (seed ^ 0xA511_05ED) as u64;
    proof {
        reveal_with_fuel(state_after, 12);
    }
    let angle: i64 = next_between(&mut s, 0, 6_283_185);
    let (freq_low, freq_high, strength_low, strength_high): (i64, i64, i64, i64) = match finish {
        Finish::Brushed => (120_000_000, 300_000_000, 50_000, 250_000),
        Finish::Circular => (110_000_000, 240_000_000, 60_000, 200_000),
        _ => (6_000_000, 16_000_000, 250_000, 500_000),
    };
    let brush_freq: i64 = next_between(&mut s, freq_low, freq_high);
    let brush_strength: i64 = next_between(&mut s, strength_low, strength_high);
    let metallic: i64 = next_between(&mut s, 450_000, 850_000);
    let roughness: i64 = next_between(&mut s, 120_000, 400_000);
    let flake_freq: i64 = next_between(&mut s, 120_000_000, 250_000_000);
    let flake: i64 = next_between(&mut s, -500_000, 500_000);
    let scratch: i64 = next_between(&mut s, -300_000, 700_000);
    let noise_offset: i64 = next_between(&mut s, 0, 64_000_000);
    let center_x: i64 = next_between(&mut s, 250_000, 750_000);
    let center_y: i64 = next_between(&mut s, 250_000, 750_000);
    MetalMaterial {
        base_color,
        metallic,
        roughness,
        params: MetalParams {
            angle,
            brush_freq,
            brush_strength,
            flake_freq,
            flake_strength: if flake < 0 {
                0
            } else {
                flake
            },
            scratch_strength: if scratch < 0 {
                0
            } else {
                scratch
            },
            noise_offset,
            center_x,
            center_y,
            finish: finish.shader_index(),
        },
    }
}

/// The material of a rocket's body: orange, with five white rings painted over it.
pub fn rocket_body_material() -> (m: MetalMaterial)
    ensures
        m.base_color == (Rgba { r: 950_000, g: 420_000, b: 50_000, a: 1_000_000 }),
        m.metallic == 300_000,
        m.roughness == 500_000,
        m.params == (MetalParams {
            angle: 0,
            brush_freq: 5_000_000,
            brush_strength: 0,
            flake_freq: 0,
            flake_strength: 0,
            scratch_strength: 0,
            noise_offset: 0,
            center_x: 0,
            center_y: 0,
            finish: Finish::Striped.index(),
        }),
{
    MetalMaterial {
        base_color: rgb(950_000, 420_000, 50_000),
        metallic: 300_000,
        roughness: 500_000,
        params: MetalParams {
            angle: 0,
            brush_freq: 5_000_000,
            brush_strength: 0,
            flake_freq: 0,
            flake_strength: 0,
            scratch_strength: 0,
            noise_offset: 0,
            center_x: 0,
            center_y: 0,
            finish: Finish::Striped.shader_index(),
        },
    }
}

/// The colour found again from the seed is the colour of the material, whatever its
/// texture.
pub proof fn law_the_tint_is_the_material_s_colour(seed: u32)
    ensures
        seed_material(seed).base_color == seed_tint(seed),
        seed_material(seed).params.finish == seed_finish(seed).index(),
{
}

/// A galvanized part is zinc-grey: bluish, and no metal of its own.
pub proof fn law_galvanized_parts_are_zinc(seed: u32)
    requires
        seed_finish(seed) is Galvanized,
    ensures
        seed_tint(seed).r <= seed_tint(seed).g <= seed_tint(seed).b,
{
    crate::client::random::lemma_unit_is_small(state_after(seed as u64, 1));
}

/// The visual of a part: twice its half extents, and the metal of its seed.
pub struct PartVisual {
    pub size: crate::geom::Point,
    pub material: MetalMaterial,
}

/// The look of a part of half the extents `half`. Both modes draw their parts by it.
pub fn part_visual(half: &crate::geom::Point, seed: u32) -> (v: PartVisual)
    requires
        half.is_local(),
    ensures
        v.size.x == 2 * half.x,
        v.size.y == 2 * half.y,
        v.size.z == 2 * half.z,
        v.material == seed_material(seed),
{
    PartVisual {
        size: crate::geom::Point { x: 2 * half.x, y: 2 * half.y, z: 2 * half.z },
        material: metal_material(seed),
    }
}

/// Four parts in ten are brushed, three are polished in circles and three are zinc: the shares
/// up to each bound, and no other, but for the one on the bound.
pub proof fn law_finishes_come_up_by_their_shares(k: int)
    requires
        0 <= k < 0x100_0000,
    ensures
        10 * k < 4 * 0x100_0000 ==> finish_of(k) is Brushed,
        10 * k >= 4 * 0x100_0000 && 10 * k + 10 < 7 * 0x100_0000 ==> finish_of(k) is Circular,
        10 * k > 7 * 0x100_0000 ==> finish_of(k) is Galvanized,
{
}

/// Each finish has a number of its own.
pub proof fn law_finishes_have_their_numbers(a: Finish, b: Finish)
    ensures
        a.index() == b.index() ==> a == b,
        a.index() < 4,
        Finish::Brushed.index() == 0,
        Finish::Striped.index() == 3,
{
}

/// A metal at a brightness is each of its channels at that brightness, at most full: at
/// brightness one it is the metal itself.
pub proof fn law_a_tint_is_the_metal_s(metal: (int, int, int), l: int)
    requires
        0 <= metal.0 <= 1_000_000,
        0 <= metal.1 <= 1_000_000,
        0 <= metal.2 <= 1_000_000,
        0 <= l <= 2_000_000,
    ensures
        ({
            let t = tint_of(metal, l);
            &&& metal.0 * l < 1_000_000_000_000 ==> 1_000_000 * t.r <= metal.0 * l < 1_000_000 * t.r
                + 1_000_000
            &&& metal.1 * l < 1_000_000_000_000 ==> 1_000_000 * t.g <= metal.1 * l < 1_000_000 * t.g
                + 1_000_000
            &&& metal.2 * l < 1_000_000_000_000 ==> 1_000_000 * t.b <= metal.2 * l < 1_000_000 * t.b
                + 1_000_000
            &&& metal.0 * l >= 1_000_000_000_000 ==> t.r == 1_000_000
            &&& metal.1 * l >= 1_000_000_000_000 ==> t.g == 1_000_000
            &&& metal.2 * l >= 1_000_000_000_000 ==> t.b == 1_000_000
            &&& t.a == 1_000_000
        }),
{
    lemma_bright(metal.0, l);
    lemma_bright(metal.1, l);
    lemma_bright(metal.2, l);
}

proof fn lemma_bright(c: int, l: int)
    requires
        0 <= c <= 1_000_000,
        0 <= l <= 2_000_000,
    ensures
        0 <= c * l,
        0 <= brightened(c, l) <= 1_000_000,
{
    assert(0 <= c * l) by (nonlinear_arith)
        requires
            0 <= c,
            0 <= l,
    ;
}

/// Every part is within what a part can look like: half metal, rather smooth, its pattern as fine
/// and as strong as its finish has it.
pub proof fn law_materials_stay_in_their_ranges(seed: u32)
    ensures
        ({
            let m = seed_material(seed);
            let p = m.params;
            &&& 450_000 <= m.metallic <= 850_000
            &&& 120_000 <= m.roughness <= 400_000
            &&& 0 <= p.angle <= 6_283_185
            &&& 120_000_000 <= p.flake_freq <= 250_000_000
            &&& 0 <= p.flake_strength <= 500_000
            &&& 0 <= p.scratch_strength <= 700_000
            &&& 0 <= p.noise_offset <= 64_000_000
            &&& 250_000 <= p.center_x <= 750_000
            &&& 250_000 <= p.center_y <= 750_000
            &&& seed_finish(seed) is Brushed ==> 120_000_000 <= p.brush_freq <= 300_000_000
                && 50_000 <= p.brush_strength <= 250_000
            &&& seed_finish(seed) is Circular ==> 110_000_000 <= p.brush_freq <= 240_000_000
                && 60_000 <= p.brush_strength <= 200_000
            &&& seed_finish(seed) is Galvanized ==> 6_000_000 <= p.brush_freq <= 16_000_000
                && 250_000 <= p.brush_strength <= 500_000
            &&& !(seed_finish(seed) is Striped)
        }),
{
    let s = texture_state(seed);
    lemma_share_between(s, 0, 0, 6_283_185);
    lemma_share_between(s, 1, 120_000_000, 300_000_000);
    lemma_share_between(s, 1, 110_000_000, 240_000_000);
    lemma_share_between(s, 1, 6_000_000, 16_000_000);
    lemma_share_between(s, 2, 50_000, 250_000);
    lemma_share_between(s, 2, 60_000, 200_000);
    lemma_share_between(s, 2, 250_000, 500_000);
    lemma_share_between(s, 3, 450_000, 850_000);
    lemma_share_between(s, 4, 120_000, 400_000);
    lemma_share_between(s, 5, 120_000_000, 250_000_000);
    lemma_share_between(s, 6, -500_000, 500_000);
    lemma_share_between(s, 7, -300_000, 700_000);
    lemma_share_between(s, 8, 0, 64_000_000);
    lemma_share_between(s, 9, 250_000, 750_000);
    lemma_share_between(s, 10, 250_000, 750_000);
}

proof fn lemma_share_between(s: u64, n: nat, low: int, high: int)
    requires
        low <= high,
    ensures
        low <= between(unit_at(s, n) as int, low, high) <= high,
{
    let k = unit_at(s, n) as int;
    crate::client::random::law_a_stream_goes_on(s, n);
    crate::client::random::law_a_draw_lies_between(k, k, low, high);
}

} // verus!
