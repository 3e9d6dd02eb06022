//! The asteroids' look: a boulder carved from its seed, so that everybody in a room sees
//! the same stone.
//!
//! A rock is read by its silhouette, so the noise goes into the geometry: every corner of
//! a sphere is pushed in or out along its own radius.

use vstd::prelude::*;
use crate::client::colour::{rgb, Rgba};
use crate::client::random::{next_between, next_unit};
use crate::client::random::{between, unit, unit_at};
use crate::geom::{floor_div, Point};
use crate::geom::{lemma_product_bound, DIRECTION_LIMIT};

verus! {

/// Corners added along each edge of the icosahedron that is carved. Seven halve every edge three
/// times over, for 1280 triangles: enough that the noise shows as facets and not as dents, and
/// cheap enough for a field of rocks.
pub const ROCK_SUBDIVISIONS: u32 = 7;

/// The sum of the octaves' amplitudes, in hundredths of the radius. Well under one half,
/// so that no corner is ever pushed through the middle.
pub const TOTAL_AMPLITUDE: u32 = 42;

/// One hundredth of the radius, in the unit of [`rock_scale`].
pub const HUNDREDTH: i64 = 0x80_0000;

// ---- Noise ---------------------------------------------------------------------------

/// The state that a corner of the lattice is hashed from.
pub open spec fn corner_state(x: i64, y: i64, z: i64, seed: u32) -> u64 {
    (x as u64).wrapping_mul(0x9E37_79B9_7F4A_7C15) ^ (y as u64).wrapping_mul(0xC2B2_AE3D_27D4_EB4F)
        ^ (z as u64).wrapping_mul(0x1656_67B1_9E37_79F9) ^ (seed as u64)
}

/// The value of a corner of the lattice, in parts of 2^24.
pub open spec fn corner(x: int, y: int, z: int, seed: u32) -> int {
    unit(corner_state(x as i64, y as i64, z as i64, seed)) as int
}

/// `w` millionths of the way from `a` to `b`.
pub open spec fn blend(a: int, b: int, w: int) -> int {
    a + ((b - a) * w) / 1_000_000
}

/// Eases `f` millionths so that the lattice shows no creases.
pub open spec fn eased(f: int) -> int {
    (f * f * (3_000_000 - 2 * f)) / 1_000_000_000_000
}

/// Smooth noise at the place `(x, y, z)`, in millionths of a lattice cell: the corners of
/// its cell, blended. In parts of 2^24.
pub open spec fn noise(x: int, y: int, z: int, seed: u32) -> int {
    let (cx, cy, cz) = (x / 1_000_000, y / 1_000_000, z / 1_000_000);
    let (tx, ty, tz) = (eased(x % 1_000_000), eased(y % 1_000_000), eased(z % 1_000_000));
    let row = |dy: int, dz: int|
        blend(corner(cx, cy + dy, cz + dz, seed), corner(cx + 1, cy + dy, cz + dz, seed), tx);
    blend(blend(row(0, 0), row(1, 0), ty), blend(row(0, 1), row(1, 1), ty), tz)
}

/// One corner of the lattice.
fn lattice(x: i64, y: i64, z: i64, seed: u32) -> (v: i64)
    ensures
        v == corner(x as int, y as int, z as int, seed),
        0 <= v < 0x100_0000,
{
    let mut state: u64 = (x as u64).wrapping_mul(0x9E37_79B9_7F4A_7C15) ^ (y as u64).wrapping_mul(
        0xC2B2_AE3D_27D4_EB4F,
    ) ^ (z as u64).wrapping_mul(0x1656_67B1_9E37_79F9) ^ (seed as u64);
    next_unit(&mut state) as i64
}

/// What lies between two values lies between them.
proof fn lemma_blend(a: int, b: int, w: int, limit: int)
    requires
        0 <= a < limit,
        0 <= b < limit,
        0 <= w <= 1_000_000,
    ensures
        0 <= blend(a, b, w) < limit,
        a <= b ==> a <= blend(a, b, w) <= b,
        b <= a ==> b <= blend(a, b, w) <= a,
{
    let d = b - a;
    if d >= 0 {
        assert(0 <= d * w <= d * 1_000_000) by (nonlinear_arith)
            requires
                0 <= d,
                0 <= w <= 1_000_000,
        ;
    } else {
        assert(d * 1_000_000 <= d * w <= 0) by (nonlinear_arith)
            requires
                d < 0,
                0 <= w <= 1_000_000,
        ;
    }
}

fn blend_of(a: i64, b: i64, w: i64) -> (v: i64)
    requires
        0 <= a < 0x100_0000,
        0 <= b < 0x100_0000,
        0 <= w <= 1_000_000,
    ensures
        v == blend(a as int, b as int, w as int),
        0 <= v < 0x100_0000,
{
    proof {
        lemma_blend(a as int, b as int, w as int, 0x100_0000);
        lemma_product_bound(b - a, w as int, 0x100_0000, 1_000_000);
    }
    (a as i128 + floor_div((b - a) as i128 * w as i128, 1_000_000)) as i64
}

/// An eased share is a share.
pub proof fn lemma_eased(f: int)
    requires
        0 <= f <= 1_000_000,
    ensures
        0 <= f * f * (3_000_000 - 2 * f) <= 1_000_000_000_000_000_000,
        0 <= eased(f) <= 1_000_000,
{
    let r = 1_000_000 - f;
    assert(f * f * (3_000_000 - 2 * f) >= 0) by (nonlinear_arith)
        requires
            0 <= f <= 1_000_000,
    ;
    assert(f * f * (3_000_000 - 2 * f) <= 1_000_000_000_000_000_000) by (nonlinear_arith)
        requires
            0 <= f <= 1_000_000,
            r == 1_000_000 - f,
    {
        assert(1_000_000_000_000_000_000 - f * f * (3_000_000 - 2 * f) == (r * r) * (1_000_000
            + 2 * f));
    }
}

fn eased_of(f: i64) -> (t: i64)
    requires
        0 <= f <= 1_000_000,
    ensures
        t == eased(f as int),
        0 <= t <= 1_000_000,
{
    proof {
        lemma_eased(f as int);
        assert(0 <= f * f <= 1_000_000_000_000) by (nonlinear_arith)
            requires
                0 <= f <= 1_000_000,
        ;
    }
    f * f * (3_000_000 - 2 * f) / 1_000_000_000_000
}

/// How far from the middle noise is sampled, in millionths of a cell.
pub const NOISE_LIMIT: i64 = 0x1000_0000;

/// The cell of a coordinate and the place in it.
fn cell_of(v: i64) -> (c: (i64, i64))
    requires
        -NOISE_LIMIT <= v <= NOISE_LIMIT,
    ensures
        c.0 == v as int / 1_000_000,
        c.1 == v as int % 1_000_000,
        -1_000 <= c.0 <= 1_000,
        0 <= c.1 < 1_000_000,
{
    let cell: i64 = floor_div(v as i128, 1_000_000) as i64;
    (cell, v - cell * 1_000_000)
}

/// Smooth noise: a function of the place and the seed alone.
pub fn value_noise(x: i64, y: i64, z: i64, seed: u32) -> (v: i64)
    requires
        -NOISE_LIMIT <= x <= NOISE_LIMIT,
        -NOISE_LIMIT <= y <= NOISE_LIMIT,
        -NOISE_LIMIT <= z <= NOISE_LIMIT,
    ensures
        v == noise(x as int, y as int, z as int, seed),
        0 <= v < 0x100_0000,
{
    let (cx, fx): (i64, i64) = cell_of(x);
    let (cy, fy): (i64, i64) = cell_of(y);
    let (cz, fz): (i64, i64) = cell_of(z);
    let (tx, ty, tz): (i64, i64, i64) = (eased_of(fx), eased_of(fy), eased_of(fz));
    let x00: i64 = blend_of(lattice(cx, cy, cz, seed), lattice(cx + 1, cy, cz, seed), tx);
    let x10: i64 = blend_of(lattice(cx, cy + 1, cz, seed), lattice(cx + 1, cy + 1, cz, seed), tx);
    let x01: i64 = blend_of(lattice(cx, cy, cz + 1, seed), lattice(cx + 1, cy, cz + 1, seed), tx);
    let x11: i64 = blend_of(
        lattice(cx, cy + 1, cz + 1, seed),
        lattice(cx + 1, cy + 1, cz + 1, seed),
        tx,
    );
    blend_of(blend_of(x00, x10, ty), blend_of(x01, x11, ty), tz)
}

// ---- Carving -------------------------------------------------------------------------

/// What one octave adds in the direction `dir`: noise at `tenths` tenths of a cell around,
/// centred so that it carves as much as it piles on, times its amplitude in hundredths.
pub open spec fn octave(dir: Point, tenths: int, amplitude: int, seed: u32) -> int {
    (noise((dir.x * tenths) / 10, (dir.y * tenths) / 10, (dir.z * tenths) / 10, seed)
        - 0x80_0000) * amplitude
}

/// How far out the rock reaches in the direction `dir`: a hundred [`HUNDREDTH`]s is its
/// radius.
pub open spec fn rock_scale(dir: Point, seed: u32) -> int {
    100 * HUNDREDTH + octave(dir, 17, 26, seed) + octave(dir, 43, 11, seed) + octave(
        dir,
        91,
        5,
        seed,
    )
}

/// The corner of the rock in the direction `dir`, in micrometres.
pub open spec fn carved(dir: Point, radius: int, seed: u32) -> Point {
    let s = rock_scale(dir, seed);
    Point {
        x: ((dir.x * radius * s) / 838_860_800_000_000) as i64,
        y: ((dir.y * radius * s) / 838_860_800_000_000) as i64,
        z: ((dir.z * radius * s) / 838_860_800_000_000) as i64,
    }
}

/// The direction of a corner of the sphere: straight up for none.
pub open spec fn corner_direction(p: Point) -> Point {
    if p.unit() == (Point { x: 0, y: 0, z: 0 }) {
        Point { x: 0, y: 1_000_000, z: 0 }
    } else {
        p.unit()
    }
}

fn octave_of(dir: &Point, tenths: i64, amplitude: i64, seed: u32) -> (d: i64)
    requires
        dir.within(2_000_000),
        0 <= tenths <= 100,
        0 <= amplitude <= 100,
    ensures
        d == octave(*dir, tenths as int, amplitude as int, seed),
        -0x80_0000 * amplitude <= d <= 0x80_0000 * amplitude,
{
    proof {
        lemma_product_bound(dir.x as int, tenths as int, 2_000_000, 100);
        lemma_product_bound(dir.y as int, tenths as int, 2_000_000, 100);
        lemma_product_bound(dir.z as int, tenths as int, 2_000_000, 100);
    }
    let x: i64 = floor_div(dir.x as i128 * tenths as i128, 10) as i64;
    let y: i64 = floor_div(dir.y as i128 * tenths as i128, 10) as i64;
    let z: i64 = floor_div(dir.z as i128 * tenths as i128, 10) as i64;
    let n: i64 = value_noise(x, y, z, seed);
    proof {
        lemma_product_bound(n - 0x80_0000, amplitude as int, 0x80_0000, amplitude as int);
    }
    (n - 0x80_0000) * amplitude
}

fn carve_axis(v: i64, radius: u32, s: i64) -> (c: i64)
    requires
        -2_000_000 <= v <= 2_000_000,
        0 <= s <= 142 * HUNDREDTH,
    ensures
        c == (v * radius * s) / 838_860_800_000_000,
{
    proof {
        lemma_product_bound(v as int, radius as int, 2_000_000, 0xffff_ffff);
        lemma_product_bound(v * radius, s as int, 0x20_0000_0000_0000, 142 * HUNDREDTH);
    }
    floor_div(v as i128 * radius as i128 * s as i128, 838_860_800_000_000) as i64
}

/// The direction of a corner of the sphere.
fn direction_of(p: &Point) -> (dir: Point)
    requires
        p.within(DIRECTION_LIMIT as int),
    ensures
        dir == corner_direction(*p),
        dir.within(2_000_000),
{
    let flat: Point = p.normalize_or_zero();
    if flat.x == 0 && flat.y == 0 && flat.z == 0 {
        Point { x: 0, y: 1_000_000, z: 0 }
    } else {
        flat
    }
}

/// How far out the rock reaches in a direction.
fn scale_of(dir: &Point, seed: u32) -> (s: i64)
    requires
        dir.within(2_000_000),
    ensures
        s == rock_scale(*dir, seed),
        0 <= s <= 142 * HUNDREDTH,
{
    100 * 0x80_0000 + octave_of(dir, 17, 26, seed) + octave_of(dir, 43, 11, seed) + octave_of(
        dir,
        91,
        5,
        seed,
    )
}

/// One corner of the rock.
fn carve(p: &Point, radius: u32, seed: u32) -> (c: Point)
    requires
        p.within(DIRECTION_LIMIT as int),
    ensures
        c == carved(corner_direction(*p), radius as int, seed),
{
    let dir: Point = direction_of(p);
    let s: i64 = scale_of(&dir, seed);
    Point {
        x: carve_axis(dir.x, radius, s),
        y: carve_axis(dir.y, radius, s),
        z: carve_axis(dir.z, radius, s),
    }
}

/// The rock: every corner of the sphere pushed in or out along its own radius. The shape
/// follows from the directions and the seed; the radius only scales it.
pub fn rock_mesh(sphere: &[Point], radius: u32, seed: u32) -> (rock: Vec<Point>)
    requires
        forall|i: int|
            0 <= i < sphere.len() ==> (#[trigger] sphere[i]).within(DIRECTION_LIMIT as int),
    ensures
        rock@ == sphere@.map_values(|p: Point| carved(corner_direction(p), radius as int, seed)),
{
    let mut rock: Vec<Point> = Vec::new();
    let mut i: usize = 0;
    while i < sphere.len()
        invariant
            forall|i: int|
                0 <= i < sphere.len() ==> (#[trigger] sphere[i]).within(DIRECTION_LIMIT as int),
            i <= sphere.len(),
            rock@.len() == i,
            forall|k: int|
                0 <= k < i ==> #[trigger] rock@[k] == carved(
                    corner_direction(sphere@[k]),
                    radius as int,
                    seed,
                ),
        decreases sphere.len() - i,
    {
        assert(sphere[i as int].within(DIRECTION_LIMIT as int));
        rock.push(carve(&sphere[i], radius, seed));
        i = i + 1;
    }
    assert(rock@ =~= sphere@.map_values(
        |p: Point| carved(corner_direction(p), radius as int, seed),
    ));
    rock
}

/// Noise never leaves its range.
proof fn lemma_noise_range(x: int, y: int, z: int, seed: u32)
    ensures
        0 <= noise(x, y, z, seed) < 0x100_0000,
{
    let (cx, cy, cz) = (x / 1_000_000, y / 1_000_000, z / 1_000_000);
    let (tx, ty, tz) = (eased(x % 1_000_000), eased(y % 1_000_000), eased(z % 1_000_000));
    lemma_eased(x % 1_000_000);
    lemma_eased(y % 1_000_000);
    lemma_eased(z % 1_000_000);
    lemma_row(cx, cy, cz, tx, seed);
    lemma_row(cx, cy + 1, cz, tx, seed);
    lemma_row(cx, cy, cz + 1, tx, seed);
    lemma_row(cx, cy + 1, cz + 1, tx, seed);
    let row = |dy: int, dz: int|
        blend(corner(cx, cy + dy, cz + dz, seed), corner(cx + 1, cy + dy, cz + dz, seed), tx);
    lemma_blend(row(0, 0), row(1, 0), ty, 0x100_0000);
    lemma_blend(row(0, 1), row(1, 1), ty, 0x100_0000);
    lemma_blend(
        blend(row(0, 0), row(1, 0), ty),
        blend(row(0, 1), row(1, 1), ty),
        tz,
        0x100_0000,
    );
}

proof fn lemma_row(x: int, y: int, z: int, t: int, seed: u32)
    requires
        0 <= t <= 1_000_000,
    ensures
        0 <= blend(corner(x, y, z, seed), corner(x + 1, y, z, seed), t) < 0x100_0000,
{
    crate::client::random::lemma_unit_is_small(corner_state(x as i64, y as i64, z as i64, seed));
    crate::client::random::lemma_unit_is_small(
        corner_state((x + 1) as i64, y as i64, z as i64, seed),
    );
    lemma_blend(corner(x, y, z, seed), corner(x + 1, y, z, seed), t, 0x100_0000);
}

/// A carved rock stays around its radius: in every direction it reaches to at least 58 and
/// at most 142 hundredths of it, whatever the seed. So no corner is pushed through the
/// middle.
pub proof fn law_the_carved_rock_stays_around_its_radius(dir: Point, seed: u32)
    ensures
        (100 - TOTAL_AMPLITUDE) * HUNDREDTH <= rock_scale(dir, seed) <= (100 + TOTAL_AMPLITUDE)
            * HUNDREDTH,
{
    lemma_octave_range(dir, 17, 26, seed);
    lemma_octave_range(dir, 43, 11, seed);
    lemma_octave_range(dir, 91, 5, seed);
}

proof fn lemma_octave_range(dir: Point, tenths: int, amplitude: int, seed: u32)
    requires
        0 <= amplitude,
    ensures
        -0x80_0000 * amplitude <= octave(dir, tenths, amplitude, seed) <= 0x80_0000 * amplitude,
{
    let n = noise((dir.x * tenths) / 10, (dir.y * tenths) / 10, (dir.z * tenths) / 10, seed);
    lemma_noise_range((dir.x * tenths) / 10, (dir.y * tenths) / 10, (dir.z * tenths) / 10, seed);
    lemma_product_bound(n - 0x80_0000, amplitude, 0x80_0000, amplitude);
}

/// No corner of a rock lies farther out than twice its radius along any axis, and none
/// lies across the middle from the direction it was carved in.
pub proof fn law_corners_follow_their_directions(dir: Point, radius: u32, seed: u32)
    requires
        dir.within(1_000_001),
    ensures
        carved(dir, radius as int, seed).within(2 * radius + 2),
        dir.x > 0 ==> carved(dir, radius as int, seed).x >= 0,
        dir.x < 0 ==> carved(dir, radius as int, seed).x <= 0,
        dir.y > 0 ==> carved(dir, radius as int, seed).y >= 0,
        dir.y < 0 ==> carved(dir, radius as int, seed).y <= 0,
        dir.z > 0 ==> carved(dir, radius as int, seed).z >= 0,
        dir.z < 0 ==> carved(dir, radius as int, seed).z <= 0,
{
    law_the_carved_rock_stays_around_its_radius(dir, seed);
    lemma_carved_axis(dir.x as int, radius as int, rock_scale(dir, seed));
    lemma_carved_axis(dir.y as int, radius as int, rock_scale(dir, seed));
    lemma_carved_axis(dir.z as int, radius as int, rock_scale(dir, seed));
}

/// Whether two rocks of these radii have one shape along an axis, where one reaches to `p`
/// and the other to `q`: what is left is less than the rounding of each to a micrometre.
pub open spec fn in_proportion(p: int, q: int, r: int, s: int) -> bool {
    -r < q * r - p * s < s
}

/// Two rocks of one seed are the same shape at two sizes: in every direction the second
/// reaches out as many times as far as the first as its radius is larger.
pub proof fn law_one_seed_is_one_shape(dir: Point, r: u32, s: u32, seed: u32)
    requires
        dir.within(2_000_000),
        0 < r,
        0 < s,
    ensures
        ({
            let (p, q) = (carved(dir, r as int, seed), carved(dir, s as int, seed));
            &&& in_proportion(p.x as int, q.x as int, r as int, s as int)
            &&& in_proportion(p.y as int, q.y as int, r as int, s as int)
            &&& in_proportion(p.z as int, q.z as int, r as int, s as int)
        }),
{
    law_the_carved_rock_stays_around_its_radius(dir, seed);
    let scale = rock_scale(dir, seed);
    lemma_in_proportion(dir.x as int, r as int, s as int, scale);
    lemma_in_proportion(dir.y as int, r as int, s as int, scale);
    lemma_in_proportion(dir.z as int, r as int, s as int, scale);
}

proof fn lemma_in_proportion(v: int, r: int, s: int, scale: int)
    requires
        -2_000_000 <= v <= 2_000_000,
        0 < r <= 0xffff_ffff,
        0 < s <= 0xffff_ffff,
        58 * HUNDREDTH <= scale <= 142 * HUNDREDTH,
    ensures
        ({
            let p = ((v * r * scale) / 838_860_800_000_000) as i64;
            let q = ((v * s * scale) / 838_860_800_000_000) as i64;
            in_proportion(p as int, q as int, r, s)
        }),
{
    lemma_product_bound(v, r, 2_000_000, 0xffff_ffff);
    lemma_product_bound(v, s, 2_000_000, 0xffff_ffff);
    lemma_product_bound(v * r, scale, 8_589_934_590_000_000, 142 * HUNDREDTH);
    lemma_product_bound(v * s, scale, 8_589_934_590_000_000, 142 * HUNDREDTH);
    let k: int = 838_860_800_000_000;
    let (a, b) = (v * r * scale, v * s * scale);
    let (p, q) = (a / k, b / k);
    let (e, f) = (a - k * p, b - k * q);
    assert(0 <= e < k && 0 <= f < k);
    assert(a * s == b * r) by (nonlinear_arith)
        requires
            a == v * r * scale,
            b == v * s * scale,
    ;
    assert((k * p + e) * s == k * (p * s) + e * s) by (nonlinear_arith);
    assert((k * q + f) * r == k * (q * r) + f * r) by (nonlinear_arith);
    assert(0 <= e * s < k * s) by (nonlinear_arith)
        requires
            0 <= e < k,
            s > 0,
    ;
    assert(0 <= f * r < k * r) by (nonlinear_arith)
        requires
            0 <= f < k,
            r > 0,
    ;
    assert(k * (q * r - p * s) == e * s - f * r) by (nonlinear_arith)
        requires
            k * (p * s) + e * s == k * (q * r) + f * r,
    ;
    let gap = q * r - p * s;
    assert(-r < gap < s);
}

proof fn lemma_carved_axis(v: int, radius: int, s: int)
    requires
        -1_000_001 <= v <= 1_000_001,
        0 <= radius <= 0xffff_ffff,
        58 * HUNDREDTH <= s <= 142 * HUNDREDTH,
    ensures
        -(2 * radius + 2) <= (v * radius * s) / 838_860_800_000_000 <= 2 * radius + 2,
        v > 0 ==> (v * radius * s) / 838_860_800_000_000 >= 0,
        v < 0 ==> (v * radius * s) / 838_860_800_000_000 <= 0,
{
    lemma_product_bound(radius, s, radius, 142 * HUNDREDTH);
    let rs = radius * s;
    assert(0 <= rs) by (nonlinear_arith)
        requires
            rs == radius * s,
            0 <= radius,
            0 <= s,
    ;
    lemma_product_bound(v, rs, 1_000_001, radius * (142 * HUNDREDTH));
    assert(v * radius * s == v * rs) by (nonlinear_arith)
        requires
            rs == radius * s,
    ;
    assert(v > 0 ==> v * rs >= 0) by (nonlinear_arith)
        requires
            0 <= rs,
    ;
    assert(v < 0 ==> v * rs <= 0) by (nonlinear_arith)
        requires
            0 <= rs,
    ;
    let top = 1_000_001 * (radius * (142 * HUNDREDTH));
    assert(top == radius * 1_191_183_527_182_336) by (nonlinear_arith)
        requires
            top == 1_000_001 * (radius * (142 * 0x80_0000)),
    ;
}

// ---- Colour --------------------------------------------------------------------------

/// The look of a rock, in millionths.
#[derive(Clone, Copy, Debug, PartialEq, Eq, Structural)]
pub struct RockLook {
    pub colour: Rgba,
    pub roughness: u32,
}

/// The seed of the colours of a rock.
pub open spec fn colour_state(seed: u32) -> u64 {
    (seed as u64) ^ 0xA57E_401D
}

/// The look that three shares make: how bright, how rusty and how rough.
pub open spec fn rock_look(bright: int, rust: int, rough: int) -> RockLook {
    let b = between(bright, 340_000, 560_000);
    let r = between(rust, 0, 350_000);
    RockLook {
        colour: Rgba {
            r: ((b * (1_000_000 + r)) / 1_000_000) as u32,
            g: ((b * (1_000_000 - r / 4)) / 1_000_000) as u32,
            b: ((b * (1_000_000 - r / 2)) / 1_000_000) as u32,
            a: 1_000_000,
        },
        roughness: between(rough, 920_000, 1_000_000) as u32,
    }
}

/// One channel: `b` times `share` millionths.
fn channel(b: i64, share: i64) -> (c: u32)
    requires
        0 <= b <= 560_000,
        0 <= share <= 1_350_000,
    ensures
        c == (b * share) / 1_000_000,
{
    proof {
        assert(0 <= b * share <= 560_000 * 1_350_000) by (nonlinear_arith)
            requires
                0 <= b <= 560_000,
                0 <= share <= 1_350_000,
        ;
    }
    (b * share / 1_000_000) as u32
}

/// Pale and dull: the seed only nudges how bright a rock is and how much rust is in it.
/// Pale, since a dark rock before a black sky cannot be seen.
pub fn rock_material(seed: u32) -> (look: RockLook)
    ensures
        ({
            let s = colour_state(seed);
            look == rock_look(
                unit_at(s, 0) as int,
                unit_at(s, 1) as int,
                unit_at(s, 2) as int,
            )
        }),
{
    let mut s: u64 = (seed as u64) ^ 0xA57E_401D;
    proof {
        reveal_with_fuel(crate::client::random::state_after, 3);
    }
    let b: i64 = next_between(&mut s, 340_000, 560_000);
    let r: i64 = next_between(&mut s, 0, 350_000);
    let rough: i64 = next_between(&mut s, 920_000, 1_000_000);
    RockLook {
        colour: rgb(
            channel(b, 1_000_000 + r),
            channel(b, 1_000_000 - r / 4),
            channel(b, 1_000_000 - r / 2),
        ),
        roughness: rough as u32,
    }
}

/// A rock as it is drawn.
#[derive(Debug)]
pub struct Rock {
    pub corners: Vec<Point>,
    pub look: RockLook,
}

/// The rock of a radius and a seed, carved out of the sphere that these directions span. It
/// looks the same to everyone who sees it.
pub fn asteroid_visual(sphere: &[Point], radius: u32, seed: u32) -> (rock: Rock)
    requires
        forall|i: int|
            0 <= i < sphere.len() ==> (#[trigger] sphere[i]).within(DIRECTION_LIMIT as int),
    ensures
        rock.corners@ == sphere@.map_values(
            |p: Point| carved(corner_direction(p), radius as int, seed),
        ),
        ({
            let s = colour_state(seed);
            rock.look == rock_look(
                unit_at(s, 0) as int,
                unit_at(s, 1) as int,
                unit_at(s, 2) as int,
            )
        }),
{
    Rock { corners: rock_mesh(sphere, radius, seed), look: rock_material(seed) }
}

/// A blend is the one end for none of the way and the other for all of it, and in between lies
/// its share of the way.
pub proof fn law_a_blend_lies_between(a: int, b: int, w: int)
    requires
        0 <= w <= 1_000_000,
    ensures
        1_000_000 * (blend(a, b, w) - a) <= (b - a) * w < 1_000_000 * (blend(a, b, w) - a)
            + 1_000_000,
        blend(a, b, 0) == a,
        blend(a, b, 1_000_000) == b,
{
    assert((b - a) * 0 == 0);
}

/// Easing starts and ends level: it is `3t^2 - 2t^3` of the way, so that what is eased before a
/// half is left after it.
pub proof fn law_easing_is_smooth(f: int)
    requires
        0 <= f <= 1_000_000,
    ensures
        1_000_000_000_000 * eased(f) <= f * f * (3_000_000 - 2 * f) < 1_000_000_000_000 * eased(f)
            + 1_000_000_000_000,
        eased(0) == 0,
        eased(1_000_000) == 1_000_000,
        999_999 <= eased(f) + eased(1_000_000 - f) <= 1_000_000,
{
    assert(0int * 0 * (3_000_000 - 2 * 0) == 0) by (nonlinear_arith);
    assert(1_000_000int * 1_000_000 * (3_000_000 - 2 * 1_000_000) == 1_000_000_000_000_000_000)
        by (nonlinear_arith);
    let g = 1_000_000 - f;
    let (p, q) = (f * f * (3_000_000 - 2 * f), g * g * (3_000_000 - 2 * g));
    assert(p + q == 1_000_000_000_000_000_000) by (nonlinear_arith)
        requires
            p == f * f * (3_000_000 - 2 * f),
            q == g * g * (3_000_000 - 2 * g),
            g == 1_000_000 - f,
    ;
}

/// At a corner of the lattice the noise is the corner's own value.
pub proof fn law_noise_passes_through_its_lattice(cx: int, cy: int, cz: int, seed: u32)
    ensures
        noise(1_000_000 * cx, 1_000_000 * cy, 1_000_000 * cz, seed) == corner(cx, cy, cz, seed),
{
    assert((1_000_000 * cx) / 1_000_000 == cx && (1_000_000 * cx) % 1_000_000 == 0);
    assert((1_000_000 * cy) / 1_000_000 == cy && (1_000_000 * cy) % 1_000_000 == 0);
    assert((1_000_000 * cz) / 1_000_000 == cz && (1_000_000 * cz) % 1_000_000 == 0);
    law_easing_is_smooth(0);
    assert forall|a: int, b: int| #[trigger] blend(a, b, 0) == a by {
        assert((b - a) * 0 == 0);
    }
}

/// A rock is carved in three octaves of noise: the broadest by 26 hundredths of its radius at most
/// half either way, the finer ones by 11 and by 5, each finer than the last.
pub proof fn law_a_rock_is_carved_in_octaves(dir: Point, seed: u32)
    ensures
        ({
            let broad = noise((dir.x * 17) / 10, (dir.y * 17) / 10, (dir.z * 17) / 10, seed);
            let fine = noise((dir.x * 43) / 10, (dir.y * 43) / 10, (dir.z * 43) / 10, seed);
            let finest = noise((dir.x * 91) / 10, (dir.y * 91) / 10, (dir.z * 91) / 10, seed);
            rock_scale(dir, seed) - 838_860_800 == 26 * (broad - 8_388_608) + 11 * (fine
                - 8_388_608) + 5 * (finest - 8_388_608)
        }),
{
}

/// A corner of a rock lies out along its own direction, by the rock's radius and by how far the
/// rock reaches there, axis by axis to the micrometre.
pub proof fn law_a_corner_is_carved_along_its_direction(dir: Point, radius: u32, seed: u32)
    requires
        dir.within(2_000_000),
    ensures
        ({
            let c = carved(dir, radius as int, seed);
            let s = rock_scale(dir, seed);
            &&& 838_860_800_000_000 * c.x <= dir.x * radius * s < 838_860_800_000_000 * c.x
                + 838_860_800_000_000
            &&& 838_860_800_000_000 * c.y <= dir.y * radius * s < 838_860_800_000_000 * c.y
                + 838_860_800_000_000
            &&& 838_860_800_000_000 * c.z <= dir.z * radius * s < 838_860_800_000_000 * c.z
                + 838_860_800_000_000
        }),
{
    law_the_carved_rock_stays_around_its_radius(dir, seed);
    let (r, s) = (radius as int, rock_scale(dir, seed));
    lemma_carved_small(dir.x as int, r, s);
    lemma_carved_small(dir.y as int, r, s);
    lemma_carved_small(dir.z as int, r, s);
}

proof fn lemma_carved_small(v: int, r: int, s: int)
    requires
        -2_000_000 <= v <= 2_000_000,
        0 <= r <= 0xffff_ffff,
        0 <= s <= 1_200_000_000,
    ensures
        -0x100_0000_0000 <= (v * r * s) / 838_860_800_000_000 <= 0x100_0000_0000,
{
    crate::geom::lemma_product_bound(v, r, 2_000_000, 0xffff_ffff);
    crate::geom::lemma_product_bound(v * r, s, 2_000_000int * 0xffff_ffff, 1_200_000_000);
}

/// A corner of the sphere is carved where it lies, and one without a place straight up.
pub proof fn law_a_corner_has_a_direction(p: Point)
    ensures
        p.unit() != (Point { x: 0, y: 0, z: 0 }) ==> corner_direction(p) == p.unit(),
        p == (Point { x: 0, y: 0, z: 0 }) ==> corner_direction(p) == (Point {
            x: 0,
            y: 1_000_000,
            z: 0,
        }),
{
    assert(0int * 0 == 0);
}

/// A rock is pale and dull; rust reddens it, and without rust it is grey.
pub proof fn law_a_rock_is_pale(bright: int, rust: int, rough: int)
    requires
        0 <= bright < 0x100_0000,
        0 <= rust < 0x100_0000,
        0 <= rough < 0x100_0000,
    ensures
        ({
            let l = rock_look(bright, rust, rough);
            &&& 340_000 <= l.colour.r <= 760_000
            &&& l.colour.b <= l.colour.g <= l.colour.r
            &&& 920_000 <= l.roughness <= 1_000_000
            &&& rust == 0 ==> l.colour.r == l.colour.g && l.colour.g == l.colour.b
                && l.colour.r == between(bright, 340_000, 560_000)
            &&& l.colour.a == 1_000_000
        }),
{
    crate::client::random::law_a_draw_lies_between(bright, bright, 340_000, 560_000);
    crate::client::random::law_a_draw_lies_between(rust, rust, 0, 350_000);
    crate::client::random::law_a_draw_lies_between(rough, rough, 920_000, 1_000_000);
    let b = between(bright, 340_000, 560_000);
    let r = between(rust, 0, 350_000);
    let (p, q, s) = (1_000_000 + r, 1_000_000 - r / 4, 1_000_000 - r / 2);
    assert(b * s <= b * q <= b * p) by (nonlinear_arith)
        requires
            b >= 0,
            s <= q <= p,
    ;
    assert(b * 1_000_000 <= b * p <= 560_000 * 1_350_000) by (nonlinear_arith)
        requires
            0 <= b <= 560_000,
            1_000_000 <= p <= 1_350_000,
    ;
    assert(b * s >= 0) by (nonlinear_arith)
        requires
            b >= 0,
            s >= 0,
    ;
    if rust == 0 {
        assert(r == 0);
        assert(b * 1_000_000 == 1_000_000 * b);
    }
}

} // verus!
