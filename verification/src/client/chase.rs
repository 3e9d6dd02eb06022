//! The chase camera: behind the craft and above it, rolled to the planet.

use super::pilot::{chase_distance, chase_target, chase_target_of, AtTheControls, CHASE_DISTANCE};
use super::pilot::{MAX_CHASE_DISTANCE, MIN_CHASE_DISTANCE};
use crate::buoyancy::hydro::Heading;
use crate::client::launch::thrust::AutopilotSnapshot;
use crate::geom::{floor_div, lemma_product_bound, Point};
use vstd::prelude::*;

verus! {

/// The angle by which the camera is lifted off the flight axis (34 degrees), in millionths
/// of its cosine and sine.
pub const ELEVATION_COS: i64 = 829_038;

pub const ELEVATION_SIN: i64 = 559_193;

/// The angle at which the craft rides below the centre of the view (12 degrees).
pub const BELOW_COS: i64 = 978_148;

pub const BELOW_SIN: i64 = 207_912;

/// The largest coordinate of a direction: directions are in millionths.
pub const UNIT_LIMIT: i64 = 2_000_000;

// ---- Directions ----------------------------------------------------------------------

/// One coordinate of `a * ka + b * kb + c * kc`, with the factors in millionths.
pub open spec fn mixed(a: i64, ka: int, b: i64, kb: int, c: i64, kc: int) -> int {
    (a * ka + b * kb + c * kc) / 1_000_000
}

/// `a * ka + b * kb + c * kc`.
pub open spec fn mix(a: Point, ka: int, b: Point, kb: int, c: Point, kc: int) -> Point {
    Point {
        x: mixed(a.x, ka, b.x, kb, c.x, kc) as i64,
        y: mixed(a.y, ka, b.y, kb, c.y, kc) as i64,
        z: mixed(a.z, ka, b.z, kb, c.z, kc) as i64,
    }
}

/// How much of `b` lies along `a`.
pub open spec fn along(a: Point, b: Point) -> int {
    (a.x * b.x + a.y * b.y + a.z * b.z) / 1_000_000
}

/// The vector square to `a` and `b`.
pub open spec fn square_to(a: Point, b: Point) -> Point {
    Point {
        x: ((a.y * b.z - a.z * b.y) / 1_000_000) as i64,
        y: ((a.z * b.x - a.x * b.z) / 1_000_000) as i64,
        z: ((a.x * b.y - a.y * b.x) / 1_000_000) as i64,
    }
}

/// `v`, turned about `axis` by the angle of this cosine and sine.
pub open spec fn turned_about(axis: Point, angle: Heading, v: Point) -> Point {
    mix(
        v,
        angle.cos as int,
        square_to(axis, v),
        angle.sin as int,
        axis,
        (along(axis, v) * (1_000_000 - angle.cos)) / 1_000_000,
    )
}

/// The unit vector along `v`, or `other` where `v` is nothing.
pub open spec fn unit_or(v: Point, other: Point) -> Point {
    if v.len2() == 0 {
        other
    } else {
        v.unit()
    }
}

pub open spec fn is_direction(p: Point) -> bool {
    p.within(UNIT_LIMIT as int)
}

fn mix_axis(a: i64, ka: i64, b: i64, kb: i64, c: i64, kc: i64) -> (v: i64)
    requires
        -10_000_000 <= a <= 10_000_000,
        -10_000_000 <= b <= 10_000_000,
        -10_000_000 <= c <= 10_000_000,
        -30_000_000 <= ka <= 30_000_000,
        -30_000_000 <= kb <= 30_000_000,
        -30_000_000 <= kc <= 30_000_000,
    ensures
        v == mixed(a, ka as int, b, kb as int, c, kc as int),
        -1_000_000_000 <= v <= 1_000_000_000,
{
    proof {
        lemma_product_bound(a as int, ka as int, 10_000_000, 30_000_000);
        lemma_product_bound(b as int, kb as int, 10_000_000, 30_000_000);
        lemma_product_bound(c as int, kc as int, 10_000_000, 30_000_000);
    }
    floor_div(a as i128 * ka as i128 + b as i128 * kb as i128 + c as i128 * kc as i128, 1_000_000)
        as i64
}

pub(crate) fn mix_of(a: &Point, ka: i64, b: &Point, kb: i64, c: &Point, kc: i64) -> (p: Point)
    requires
        a.within(10_000_000),
        b.within(10_000_000),
        c.within(10_000_000),
        -30_000_000 <= ka <= 30_000_000,
        -30_000_000 <= kb <= 30_000_000,
        -30_000_000 <= kc <= 30_000_000,
    ensures
        p == mix(*a, ka as int, *b, kb as int, *c, kc as int),
        p.within(1_000_000_000),
{
    Point {
        x: mix_axis(a.x, ka, b.x, kb, c.x, kc),
        y: mix_axis(a.y, ka, b.y, kb, c.y, kc),
        z: mix_axis(a.z, ka, b.z, kb, c.z, kc),
    }
}

fn product(a: i64, b: i64) -> (p: i128)
    requires
        -10_000_000 <= a <= 10_000_000,
        -10_000_000 <= b <= 10_000_000,
    ensures
        p == a * b,
        -100_000_000_000_000 <= p <= 100_000_000_000_000,
        -2_000_000 <= a <= 2_000_000 && -2_000_000 <= b <= 2_000_000 ==> -4_000_000_000_000 <= p
            <= 4_000_000_000_000,
{
    proof {
        lemma_product_bound(a as int, b as int, 10_000_000, 10_000_000);
        if -2_000_000 <= a <= 2_000_000 && -2_000_000 <= b <= 2_000_000 {
            lemma_product_bound(a as int, b as int, 2_000_000, 2_000_000);
        }
    }
    a as i128 * b as i128
}

pub(crate) fn along_of(a: &Point, b: &Point) -> (d: i64)
    requires
        is_direction(*a),
        is_direction(*b),
    ensures
        d == along(*a, *b),
        -12_000_000 <= d <= 12_000_000,
{
    floor_div(product(a.x, b.x) + product(a.y, b.y) + product(a.z, b.z), 1_000_000) as i64
}

pub(crate) fn square_to_of(a: &Point, b: &Point) -> (p: Point)
    requires
        is_direction(*a),
        is_direction(*b),
    ensures
        p == square_to(*a, *b),
        p.within(8_000_000),
{
    Point {
        x: floor_div(product(a.y, b.z) - product(a.z, b.y), 1_000_000) as i64,
        y: floor_div(product(a.z, b.x) - product(a.x, b.z), 1_000_000) as i64,
        z: floor_div(product(a.x, b.y) - product(a.y, b.x), 1_000_000) as i64,
    }
}

fn turn_about(axis: &Point, angle: &Heading, v: &Point) -> (p: Point)
    requires
        is_direction(*axis),
        is_direction(*v),
        angle.valid(),
    ensures
        p == turned_about(*axis, *angle, *v),
        p.within(1_000_000_000),
{
    let d: i64 = along_of(axis, v);
    let rest: i64 = 1_000_000 - angle.cos;
    proof {
        lemma_product_bound(d as int, rest as int, 12_000_000, 2_000_000);
    }
    let k: i64 = floor_div(d as i128 * rest as i128, 1_000_000) as i64;
    let side: Point = square_to_of(axis, v);
    mix_of(v, angle.cos, &side, angle.sin, axis, k)
}

/// The unit vector along `v`, or another where `v` is nothing.
pub(crate) fn unit_of_or(v: &Point, other: &Point) -> (p: Point)
    requires
        v.within(1_000_000_000),
        is_direction(*other),
    ensures
        p == unit_or(*v, *other),
        is_direction(p),
{
    if v.length_squared() == 0 {
        *other
    } else {
        v.normalize_or_zero()
    }
}

// ---- The camera ----------------------------------------------------------------------

/// A way to fly and a way up.
#[derive(Clone, Copy, Debug, PartialEq, Eq, Structural)]
pub struct Basis {
    pub forward: Point,
    pub up: Point,
}

impl Basis {
    pub open spec fn valid(self) -> bool {
        is_direction(self.forward) && is_direction(self.up)
    }
}

/// The basis that is `alpha` millionths of the way from `from` to `to`, with its way up square
/// to its way ahead again.
pub open spec fn eased(from: Basis, to: Basis, alpha: int) -> Basis {
    let none = Point { x: 0, y: 0, z: 0 };
    let ahead = mix(from.forward, 1_000_000 - alpha, to.forward, alpha, none, 0);
    let forward = unit_or(ahead, to.forward);
    let up = mix(from.up, 1_000_000 - alpha, to.up, alpha, none, 0);
    Basis {
        forward,
        up: unit_or(mix(up, 1_000_000, forward, -along(forward, up), none, 0), up),
    }
}

/// What lies between two coordinates of directions is one of a direction.
proof fn lemma_between(a: i64, b: i64, alpha: int)
    requires
        -UNIT_LIMIT <= a <= UNIT_LIMIT,
        -UNIT_LIMIT <= b <= UNIT_LIMIT,
        0 <= alpha <= 1_000_000,
    ensures
        -UNIT_LIMIT <= mixed(a, 1_000_000 - alpha, b, alpha, 0, 0) <= UNIT_LIMIT,
{
    lemma_product_bound(a as int, 1_000_000 - alpha, 2_000_000, 1_000_000 - alpha);
    lemma_product_bound(b as int, alpha, 2_000_000, alpha);
    assert(2_000_000 * (1_000_000 - alpha) + 2_000_000 * alpha == 2_000_000_000_000);
}

fn ease(from: &Basis, to: &Basis, alpha: u32) -> (b: Basis)
    requires
        from.valid(),
        to.valid(),
        alpha <= 1_000_000,
    ensures
        b == eased(*from, *to, alpha as int),
        b.valid(),
{
    let none: Point = Point { x: 0, y: 0, z: 0 };
    let a: i64 = alpha as i64;
    let ahead: Point = mix_of(&from.forward, 1_000_000 - a, &to.forward, a, &none, 0);
    let forward: Point = unit_of_or(&ahead, &to.forward);
    let up: Point = mix_of(&from.up, 1_000_000 - a, &to.up, a, &none, 0);
    proof {
        lemma_between(from.up.x, to.up.x, a as int);
        lemma_between(from.up.y, to.up.y, a as int);
        lemma_between(from.up.z, to.up.z, a as int);
    }
    let level: Point = mix_of(&up, 1_000_000, &forward, -along_of(&forward, &up), &none, 0);
    Basis { forward, up: unit_of_or(&level, &up) }
}

/// The way out from the craft to the camera, swung by the pilot's glance: `yaw` and `pitch`
/// are the angles by which the eye swings.
pub open spec fn way_out(basis: Basis, yaw: Heading, pitch: Heading) -> Point {
    let none = Point { x: 0, y: 0, z: 0 };
    let right = right_of(basis);
    let astern = unit_or(
        mix(basis.forward, -ELEVATION_COS, basis.up, ELEVATION_SIN as int, none, 0),
        basis.up,
    );
    let swung = unit_or(turned_about(basis.up, yaw, astern), astern);
    let axis = unit_or(turned_about(basis.up, yaw, right), right);
    unit_or(turned_about(axis, pitch, swung), swung)
}

pub open spec fn right_of(basis: Basis) -> Point {
    unit_or(square_to(basis.forward, basis.up), Point { x: 1_000_000, y: 0, z: 0 })
}

/// The way that the camera looks: up off the craft, so that it rides below the centre.
pub open spec fn aim_of(basis: Basis, out: Point) -> Point {
    let to_craft = unit_or(
        Point { x: (-out.x) as i64, y: (-out.y) as i64, z: (-out.z) as i64 },
        basis.forward,
    );
    let view_right = unit_or(square_to(to_craft, basis.up), right_of(basis));
    unit_or(
        turned_about(view_right, Heading { cos: BELOW_COS, sin: BELOW_SIN }, to_craft),
        to_craft,
    )
}

/// The distance at which a craft of this radius is chased.
pub open spec fn distance_of(radius: u64) -> int {
    if radius * CHASE_DISTANCE < MIN_CHASE_DISTANCE {
        MIN_CHASE_DISTANCE as int
    } else if radius * CHASE_DISTANCE > MAX_CHASE_DISTANCE {
        MAX_CHASE_DISTANCE as int
    } else {
        radius * CHASE_DISTANCE
    }
}

/// One coordinate of a point `distance` out.
pub open spec fn out_by(from: int, out: int, distance: int) -> int {
    from + (out * distance) / 1_000_000
}

/// Where the camera stands, where it looks, and which way is up.
#[derive(Clone, Copy, Debug, PartialEq, Eq, Structural)]
pub struct CameraPose {
    pub eye: Point,
    pub aim: Point,
    pub up: Point,
}

/// What drives the camera in a frame: the flight's own directions, how far the camera's
/// directions follow them, and the angles by which the pilot's glance swings the eye.
#[derive(Clone, Copy, Debug, PartialEq, Eq, Structural)]
pub struct ChaseInput {
    pub frame: Basis,
    pub alpha: u32,
    pub yaw: Heading,
    pub pitch: Heading,
}

impl ChaseInput {
    pub open spec fn valid(self) -> bool {
        self.frame.valid() && self.alpha <= 1_000_000 && self.yaw.valid() && self.pitch.valid()
    }

    /// The camera's directions, from those that it had.
    pub open spec fn basis(self, before: Option<Basis>) -> Basis {
        match before {
            Some(b) => eased(b, self.frame, self.alpha as int),
            None => self.frame,
        }
    }
}

fn out_axis(from: i64, out: i64, distance: u64) -> (v: i64)
    requires
        -0x4000_0000_0000_0000 <= from <= 0x4000_0000_0000_0000,
        -2_000_000 <= out <= 2_000_000,
        distance <= 90_000_000,
    ensures
        v == out_by(from as int, out as int, distance as int),
{
    proof {
        lemma_product_bound(out as int, distance as int, 2_000_000, 90_000_000);
    }
    from + floor_div(out as i128 * distance as i128, 1_000_000) as i64
}

fn right_dir(basis: &Basis) -> (p: Point)
    requires
        basis.valid(),
    ensures
        p == right_of(*basis),
        is_direction(p),
{
    unit_of_or(
        &square_to_of(&basis.forward, &basis.up),
        &Point { x: 1_000_000, y: 0, z: 0 },
    )
}

fn out_dir(basis: &Basis, yaw: &Heading, pitch: &Heading) -> (out: Point)
    requires
        basis.valid(),
        yaw.valid(),
        pitch.valid(),
    ensures
        out == way_out(*basis, *yaw, *pitch),
        is_direction(out),
{
    let none: Point = Point { x: 0, y: 0, z: 0 };
    let right: Point = right_dir(basis);
    let lifted: Point = mix_of(&basis.forward, -ELEVATION_COS, &basis.up, ELEVATION_SIN, &none, 0);
    let astern: Point = unit_of_or(&lifted, &basis.up);
    let swung: Point = unit_of_or(&turn_about(&basis.up, yaw, &astern), &astern);
    let axis: Point = unit_of_or(&turn_about(&basis.up, yaw, &right), &right);
    unit_of_or(&turn_about(&axis, pitch, &swung), &swung)
}

fn aim_dir(basis: &Basis, out: &Point) -> (aim: Point)
    requires
        basis.valid(),
        is_direction(*out),
    ensures
        aim == aim_of(*basis, *out),
{
    let back: Point = Point { x: -out.x, y: -out.y, z: -out.z };
    let to_craft: Point = unit_of_or(&back, &basis.forward);
    let view_right: Point = unit_of_or(&square_to_of(&to_craft, &basis.up), &right_dir(basis));
    let below: Heading = Heading { cos: BELOW_COS, sin: BELOW_SIN };
    unit_of_or(&turn_about(&view_right, &below, &to_craft), &to_craft)
}

/// Puts the camera behind the craft that this client flies. Without the controls, or without a
/// craft, it is not touched, and the next chase starts afresh.
pub fn drive_pilot_camera(
    controls: &AtTheControls,
    snap: &Option<AutopilotSnapshot>,
    drawn: Option<Point>,
    input: &ChaseInput,
    basis: &mut Option<Basis>,
) -> (pose: Option<CameraPose>)
    requires
        input.valid(),
        *old(basis) matches Some(b) ==> b.valid(),
        snap matches Some(s) ==> s.true_pos.is_world() && s.frame_offset.is_world() && (
        s.anchor matches Some(a) ==> a.position.is_world()),
        drawn matches Some(p) ==> p.is_world(),
    ensures
        match *snap {
            Some(s) if controls.0 => {
                let b = input.basis(*old(basis));
                let (out, d) = (way_out(b, input.yaw, input.pitch), distance_of(s.radius));
                let target = chase_target_of(s, drawn);
                &&& *final(basis) == Some(b)
                &&& b.valid()
                &&& pose is Some
                &&& pose->0.eye.x == out_by(target.x as int, out.x as int, d)
                &&& pose->0.eye.y == out_by(target.y as int, out.y as int, d)
                &&& pose->0.eye.z == out_by(target.z as int, out.z as int, d)
                &&& pose->0.aim == aim_of(b, out)
                &&& pose->0.up == b.up
            },
            _ => *final(basis) is None && pose is None,
        },
{
    match snap {
        Some(s) if controls.0 => {
            let target: Point = chase_target(s, drawn);
            let now: Basis = match *basis {
                Some(b) => ease(&b, &input.frame, input.alpha),
                None => input.frame,
            };
            *basis = Some(now);
            let out: Point = out_dir(&now, &input.yaw, &input.pitch);
            let d: u64 = chase_distance(s.radius);
            Some(
                CameraPose {
                    eye: Point {
                        x: out_axis(target.x, out.x, d),
                        y: out_axis(target.y, out.y, d),
                        z: out_axis(target.z, out.z, d),
                    },
                    aim: aim_dir(&now, &out),
                    up: now.up,
                },
            )
        },
        _ => {
            *basis = None;
            None
        },
    }
}

/// The law of the glance: to turn by nothing leaves every direction as it is.
pub proof fn law_no_glance_no_turn(axis: Point, v: Point)
    ensures
        turned_about(axis, Heading { cos: 1_000_000, sin: 0 }, v) == v,
{
    let d = along(axis, v);
    assert(d * (1_000_000 - 1_000_000) == 0);
    let s = square_to(axis, v);
    assert(s.x * 0 == 0 && s.y * 0 == 0 && s.z * 0 == 0);
    assert(axis.x * 0 == 0 && axis.y * 0 == 0 && axis.z * 0 == 0);
}

// ---- What the directions promise -----------------------------------------------------

/// A mix is the sum of its parts, each by its own factor in millionths, axis by axis.
pub proof fn law_a_mix_is_the_sum_of_its_parts(
    a: Point,
    ka: int,
    b: Point,
    kb: int,
    c: Point,
    kc: int,
)
    requires
        a.within(10_000_000),
        b.within(10_000_000),
        c.within(10_000_000),
        -30_000_000 <= ka <= 30_000_000,
        -30_000_000 <= kb <= 30_000_000,
        -30_000_000 <= kc <= 30_000_000,
    ensures
        ({
            let m = mix(a, ka, b, kb, c, kc);
            &&& 1_000_000 * m.x <= ka * a.x + kb * b.x + kc * c.x < 1_000_000 * m.x + 1_000_000
            &&& 1_000_000 * m.y <= ka * a.y + kb * b.y + kc * c.y < 1_000_000 * m.y + 1_000_000
            &&& 1_000_000 * m.z <= ka * a.z + kb * b.z + kc * c.z < 1_000_000 * m.z + 1_000_000
            &&& m.within(1_000_000_000)
        }),
{
    lemma_mixed(a.x, ka, b.x, kb, c.x, kc);
    lemma_mixed(a.y, ka, b.y, kb, c.y, kc);
    lemma_mixed(a.z, ka, b.z, kb, c.z, kc);
}

proof fn lemma_mixed(a: i64, ka: int, b: i64, kb: int, c: i64, kc: int)
    requires
        -10_000_000 <= a <= 10_000_000,
        -10_000_000 <= b <= 10_000_000,
        -10_000_000 <= c <= 10_000_000,
        -30_000_000 <= ka <= 30_000_000,
        -30_000_000 <= kb <= 30_000_000,
        -30_000_000 <= kc <= 30_000_000,
    ensures
        1_000_000 * mixed(a, ka, b, kb, c, kc) <= ka * a + kb * b + kc * c < 1_000_000 * mixed(
            a,
            ka,
            b,
            kb,
            c,
            kc,
        ) + 1_000_000,
        -1_000_000_000 <= mixed(a, ka, b, kb, c, kc) <= 1_000_000_000,
{
    lemma_product_bound(a as int, ka, 10_000_000, 30_000_000);
    lemma_product_bound(b as int, kb, 10_000_000, 30_000_000);
    lemma_product_bound(c as int, kc, 10_000_000, 30_000_000);
    lemma_commutes(a as int, ka);
    lemma_commutes(b as int, kb);
    lemma_commutes(c as int, kc);
}

proof fn lemma_commutes(a: int, b: int)
    ensures
        a * b == b * a,
{
    assert(a * b == b * a) by (nonlinear_arith);
}

/// How much lies along is the sum of the products of the axes, in millionths; it is the same
/// either way round.
pub proof fn law_along_is_by_axes(a: Point, b: Point)
    ensures
        1_000_000 * along(a, b) <= a.x * b.x + a.y * b.y + a.z * b.z < 1_000_000 * along(a, b)
            + 1_000_000,
        along(a, b) == along(b, a),
{
    lemma_commutes(a.x as int, b.x as int);
    lemma_commutes(a.y as int, b.y as int);
    lemma_commutes(a.z as int, b.z as int);
}

/// The vector square to two others lies along neither, to the rounding of its coordinates.
pub proof fn law_square_to_is_square(a: Point, b: Point)
    requires
        is_direction(a),
        is_direction(b),
    ensures
        ({
            let c = square_to(a, b);
            &&& -6_000_000 <= a.x * c.x + a.y * c.y + a.z * c.z <= 6_000_000
            &&& -6_000_000 <= b.x * c.x + b.y * c.y + b.z * c.z <= 6_000_000
        }),
{
    let c = square_to(a, b);
    let (ax, ay, az) = (a.x as int, a.y as int, a.z as int);
    let (bx, by, bz) = (b.x as int, b.y as int, b.z as int);
    lemma_pair(ay, bz, az, by);
    lemma_pair(az, bx, ax, bz);
    lemma_pair(ax, by, ay, bx);
    let (ex, ey, ez) = (
        (ay * bz - az * by) - 1_000_000 * c.x,
        (az * bx - ax * bz) - 1_000_000 * c.y,
        (ax * by - ay * bx) - 1_000_000 * c.z,
    );
    lemma_orthogonal(ax, ay, az, bx, by, bz);
    lemma_rest(ax, ay, az, c.x as int, c.y as int, c.z as int, ay * bz - az * by, az * bx - ax * bz, ax * by - ay * bx, ex, ey, ez);
    lemma_rest(bx, by, bz, c.x as int, c.y as int, c.z as int, ay * bz - az * by, az * bx - ax * bz, ax * by - ay * bx, ex, ey, ez);
}

proof fn lemma_pair(p: int, q: int, r: int, s: int)
    requires
        -2_000_000 <= p <= 2_000_000,
        -2_000_000 <= q <= 2_000_000,
        -2_000_000 <= r <= 2_000_000,
        -2_000_000 <= s <= 2_000_000,
    ensures
        -8_000_000 <= (p * q - r * s) / 1_000_000 <= 8_000_000,
        1_000_000 * ((p * q - r * s) / 1_000_000) <= p * q - r * s < 1_000_000 * ((p * q - r * s)
            / 1_000_000) + 1_000_000,
{
    lemma_product_bound(p, q, 2_000_000, 2_000_000);
    lemma_product_bound(r, s, 2_000_000, 2_000_000);
}

proof fn lemma_orthogonal(ax: int, ay: int, az: int, bx: int, by: int, bz: int)
    ensures
        ax * (ay * bz - az * by) + ay * (az * bx - ax * bz) + az * (ax * by - ay * bx) == 0,
        bx * (ay * bz - az * by) + by * (az * bx - ax * bz) + bz * (ax * by - ay * bx) == 0,
{
    assert(ax * (ay * bz - az * by) + ay * (az * bx - ax * bz) + az * (ax * by - ay * bx) == 0)
        by (nonlinear_arith);
    assert(bx * (ay * bz - az * by) + by * (az * bx - ax * bz) + bz * (ax * by - ay * bx) == 0)
        by (nonlinear_arith);
}

proof fn lemma_rest(
    a: int,
    b: int,
    c: int,
    x: int,
    y: int,
    z: int,
    p: int,
    q: int,
    r: int,
    ex: int,
    ey: int,
    ez: int,
)
    requires
        -2_000_000 <= a <= 2_000_000,
        -2_000_000 <= b <= 2_000_000,
        -2_000_000 <= c <= 2_000_000,
        p == 1_000_000 * x + ex,
        q == 1_000_000 * y + ey,
        r == 1_000_000 * z + ez,
        0 <= ex < 1_000_000,
        0 <= ey < 1_000_000,
        0 <= ez < 1_000_000,
        a * p + b * q + c * r == 0,
    ensures
        -6_000_000 <= a * x + b * y + c * z <= 6_000_000,
{
    lemma_product_bound(a, ex, 2_000_000, 1_000_000);
    lemma_product_bound(b, ey, 2_000_000, 1_000_000);
    lemma_product_bound(c, ez, 2_000_000, 1_000_000);
    assert(a * p == 1_000_000 * (a * x) + a * ex) by (nonlinear_arith)
        requires
            p == 1_000_000 * x + ex,
    ;
    assert(b * q == 1_000_000 * (b * y) + b * ey) by (nonlinear_arith)
        requires
            q == 1_000_000 * y + ey,
    ;
    assert(c * r == 1_000_000 * (c * z) + c * ez) by (nonlinear_arith)
        requires
            r == 1_000_000 * z + ez,
    ;
}

/// The axes are right-handed: x and y are square to z, y and z to x, z and x to y.
pub proof fn law_square_to_is_right_handed(k: i64, v: Point)
    requires
        -2 <= k <= 2,
        is_direction(v),
    ensures
        square_to(Point { x: (1_000_000 * k) as i64, y: 0, z: 0 }, v) == (Point {
            x: 0,
            y: (-k * v.z) as i64,
            z: (k * v.y) as i64,
        }),
        square_to(Point { x: 0, y: (1_000_000 * k) as i64, z: 0 }, v) == (Point {
            x: (k * v.z) as i64,
            y: 0,
            z: (-k * v.x) as i64,
        }),
        square_to(Point { x: 0, y: 0, z: (1_000_000 * k) as i64 }, v) == (Point {
            x: (-k * v.y) as i64,
            y: (k * v.x) as i64,
            z: 0,
        }),
{
    let j = 1_000_000 * k;
    lemma_scaled_product(k as int, v.x as int);
    lemma_scaled_product(k as int, v.y as int);
    lemma_scaled_product(k as int, v.z as int);
    assert(0 * v.x == 0 && 0 * v.y == 0 && 0 * v.z == 0);
}

proof fn lemma_scaled_product(k: int, v: int)
    ensures
        (1_000_000 * k) * v == 1_000_000 * (k * v),
        ((1_000_000 * k) * v) / 1_000_000 == k * v,
        (-((1_000_000 * k) * v)) / 1_000_000 == (-k) * v,
{
    assert((1_000_000 * k) * v == 1_000_000 * (k * v)) by (nonlinear_arith);
    assert((-k) * v == -(k * v)) by (nonlinear_arith);
}

proof fn lemma_along_axis(k: int, a: int, p: int, b: int, q: int, c: int)
    requires
        k == 1_000_000,
        p == 0,
        q == 0,
    ensures
        k * a == 1_000_000 * a,
        p * b == 0,
        q * c == 0,
{
    assert(k * a == 1_000_000 * a) by (nonlinear_arith)
        requires
            k == 1_000_000,
    ;
    assert(p * b == 0) by (nonlinear_arith)
        requires
            p == 0,
    ;
    assert(q * c == 0) by (nonlinear_arith)
        requires
            q == 0,
    ;
}

/// A turn about the way up takes z towards x and leaves the height, to a millionth: what was
/// along x and z is along them again, by the cosine and the sine of the angle.
pub proof fn law_a_turn_about_y(angle: Heading, v: Point)
    requires
        angle.valid(),
        is_direction(v),
    ensures
        ({
            let t = turned_about(Point { x: 0, y: 1_000_000, z: 0 }, angle, v);
            &&& 1_000_000 * t.x <= v.x * angle.cos + v.z * angle.sin < 1_000_000 * t.x + 1_000_000
            &&& 1_000_000 * t.z <= v.z * angle.cos - v.x * angle.sin < 1_000_000 * t.z + 1_000_000
            &&& v.y - 1 <= t.y <= v.y
        }),
{
    let axis = Point { x: 0, y: 1_000_000, z: 0 };
    law_square_to_is_right_handed(1, v);
    let s = square_to(axis, v);
    assert(s == (Point { x: v.z, y: 0, z: (-v.x) as i64 }));
    assert(0 * v.x == 0 && 0 * v.z == 0);
    lemma_along_axis(axis.y as int, v.y as int, axis.x as int, v.x as int, axis.z as int, v.z as int);
    assert(axis.x * v.x + axis.y * v.y + axis.z * v.z == 1_000_000 * v.y);
    assert(along(axis, v) == v.y);
    let q = (v.y * (1_000_000 - angle.cos)) / 1_000_000;
    lemma_product_bound(v.y as int, 1_000_000 - angle.cos, 2_000_000, 2_000_000);
    law_a_mix_is_the_sum_of_its_parts(v, angle.cos as int, s, angle.sin as int, axis, q);
    lemma_commutes(v.x as int, angle.cos as int);
    lemma_commutes(v.y as int, angle.cos as int);
    lemma_commutes(v.z as int, angle.cos as int);
    lemma_commutes(v.z as int, angle.sin as int);
    let (x, sin, c) = (v.x as int, angle.sin as int, angle.cos as int);
    assert(sin * (-x) == -(x * sin)) by (nonlinear_arith);
    assert(q * 0 == 0 && sin * 0 == 0);
    let y = v.y as int;
    assert(y * (1_000_000 - c) == 1_000_000 * y - y * c) by (nonlinear_arith);
}

/// A turn about x takes y towards z and leaves what is along x, to a millionth.
pub proof fn law_a_turn_about_x(angle: Heading, v: Point)
    requires
        angle.valid(),
        is_direction(v),
    ensures
        ({
            let t = turned_about(Point { x: 1_000_000, y: 0, z: 0 }, angle, v);
            &&& 1_000_000 * t.y <= v.y * angle.cos - v.z * angle.sin < 1_000_000 * t.y + 1_000_000
            &&& 1_000_000 * t.z <= v.z * angle.cos + v.y * angle.sin < 1_000_000 * t.z + 1_000_000
            &&& v.x - 1 <= t.x <= v.x
        }),
{
    let axis = Point { x: 1_000_000, y: 0, z: 0 };
    law_square_to_is_right_handed(1, v);
    let s = square_to(axis, v);
    assert(s == (Point { x: 0, y: (-v.z) as i64, z: v.y }));
    assert(0 * v.y == 0 && 0 * v.z == 0);
    lemma_along_axis(axis.x as int, v.x as int, axis.y as int, v.y as int, axis.z as int, v.z as int);
    assert(axis.x * v.x + axis.y * v.y + axis.z * v.z == 1_000_000 * v.x);
    assert(along(axis, v) == v.x);
    let q = (v.x * (1_000_000 - angle.cos)) / 1_000_000;
    lemma_product_bound(v.x as int, 1_000_000 - angle.cos, 2_000_000, 2_000_000);
    law_a_mix_is_the_sum_of_its_parts(v, angle.cos as int, s, angle.sin as int, axis, q);
    lemma_commutes(v.x as int, angle.cos as int);
    lemma_commutes(v.y as int, angle.cos as int);
    lemma_commutes(v.z as int, angle.cos as int);
    lemma_commutes(v.y as int, angle.sin as int);
    let (z, sin, c) = (v.z as int, angle.sin as int, angle.cos as int);
    assert(sin * (-z) == -(z * sin)) by (nonlinear_arith);
    assert(q * 0 == 0 && sin * 0 == 0);
    let x = v.x as int;
    assert(x * (1_000_000 - c) == 1_000_000 * x - x * c) by (nonlinear_arith);
}

/// The distance of the camera is five radii of the craft, from 32 to 90 metres.
pub proof fn law_the_camera_keeps_its_distance(radius: u64)
    ensures
        32_000_000 <= distance_of(radius) <= 90_000_000,
        32_000_000 <= 5 * radius <= 90_000_000 ==> distance_of(radius) == 5 * radius,
        5 * radius <= 32_000_000 ==> distance_of(radius) == 32_000_000,
        5 * radius >= 90_000_000 ==> distance_of(radius) == 90_000_000,
{
}

/// The eye stands off the craft by its distance along the way out, to the micrometre.
pub proof fn law_the_eye_stands_out(from: int, out: int, distance: int)
    ensures
        1_000_000 * (out_by(from, out, distance) - from) <= distance * out < 1_000_000 * (out_by(
            from,
            out,
            distance,
        ) - from) + 1_000_000,
{
    lemma_commutes(out, distance);
}

/// The first frame of a chase takes the flight's own directions; later ones ease towards them.
pub proof fn law_a_chase_starts_on_the_flight(input: ChaseInput, before: Basis)
    ensures
        input.basis(None) == input.frame,
        input.basis(Some(before)) == eased(before, input.frame, input.alpha as int),
{
}

/// A direction without length gives way to the other; any other becomes a unit vector.
pub proof fn law_nothing_gives_way(v: Point, other: Point)
    ensures
        v == (Point { x: 0, y: 0, z: 0 }) ==> unit_or(v, other) == other,
        v.x * v.x + v.y * v.y + v.z * v.z > 0 ==> unit_or(v, other) == v.unit(),
{
    assert(0int * 0 == 0);
}

/// Eased by nothing the camera flies on as it did; eased all the way it flies as the flight
/// does. In between its way ahead is that of the mix of the two, each by its share.
pub proof fn law_easing_runs_from_one_to_the_other(from: Basis, to: Basis, alpha: int)
    requires
        from.valid(),
        to.valid(),
        0 <= alpha <= 1_000_000,
    ensures
        eased(from, to, 0).forward == unit_or(from.forward, to.forward),
        eased(from, to, 1_000_000).forward == unit_or(to.forward, to.forward),
        exists|ahead: Point|
            {
                &&& eased(from, to, alpha).forward == #[trigger] unit_or(ahead, to.forward)
                &&& 1_000_000 * ahead.x <= (1_000_000 - alpha) * from.forward.x + alpha
                    * to.forward.x < 1_000_000 * ahead.x + 1_000_000
                &&& 1_000_000 * ahead.y <= (1_000_000 - alpha) * from.forward.y + alpha
                    * to.forward.y < 1_000_000 * ahead.y + 1_000_000
                &&& 1_000_000 * ahead.z <= (1_000_000 - alpha) * from.forward.z + alpha
                    * to.forward.z < 1_000_000 * ahead.z + 1_000_000
            },
{
    let none = Point { x: 0, y: 0, z: 0 };
    lemma_one_part(from.forward, to.forward);
    lemma_one_part(to.forward, from.forward);
    let ahead = mix(from.forward, 1_000_000 - alpha, to.forward, alpha, none, 0);
    law_a_mix_is_the_sum_of_its_parts(
        from.forward,
        1_000_000 - alpha,
        to.forward,
        alpha,
        none,
        0,
    );
    assert(mix(from.forward, 0, to.forward, 1_000_000, none, 0) == to.forward);
    assert(eased(from, to, alpha).forward == unit_or(ahead, to.forward));
}

proof fn lemma_one_part(a: Point, b: Point)
    ensures
        mix(a, 1_000_000, b, 0, Point { x: 0, y: 0, z: 0 }, 0) == a,
        mix(b, 0, a, 1_000_000, Point { x: 0, y: 0, z: 0 }, 0) == a,
{
    assert(b.x * 0 == 0 && b.y * 0 == 0 && b.z * 0 == 0);
}

/// The camera's way up is that of the mix of the two ways up, with what lies along its way
/// ahead taken off.
pub proof fn law_easing_keeps_up_square(from: Basis, to: Basis, alpha: int)
    requires
        from.valid(),
        to.valid(),
        0 <= alpha <= 1_000_000,
    ensures
        exists|up: Point, level: Point|
            {
                let b = eased(from, to, alpha);
                &&& b.up == #[trigger] unit_or(level, up)
                &&& 1_000_000 * up.x <= (1_000_000 - alpha) * from.up.x + alpha * to.up.x
                    < 1_000_000 * up.x + 1_000_000
                &&& 1_000_000 * up.y <= (1_000_000 - alpha) * from.up.y + alpha * to.up.y
                    < 1_000_000 * up.y + 1_000_000
                &&& 1_000_000 * up.z <= (1_000_000 - alpha) * from.up.z + alpha * to.up.z
                    < 1_000_000 * up.z + 1_000_000
                &&& 1_000_000 * (up.x - level.x) >= along(b.forward, up) * b.forward.x
                    > 1_000_000 * (up.x - level.x) - 1_000_000
                &&& 1_000_000 * (up.y - level.y) >= along(b.forward, up) * b.forward.y
                    > 1_000_000 * (up.y - level.y) - 1_000_000
                &&& 1_000_000 * (up.z - level.z) >= along(b.forward, up) * b.forward.z
                    > 1_000_000 * (up.z - level.z) - 1_000_000
            },
{
    let none = Point { x: 0, y: 0, z: 0 };
    let b = eased(from, to, alpha);
    let up = mix(from.up, 1_000_000 - alpha, to.up, alpha, none, 0);
    law_a_mix_is_the_sum_of_its_parts(from.up, 1_000_000 - alpha, to.up, alpha, none, 0);
    lemma_shares(from.up.x as int, to.up.x as int, alpha);
    lemma_shares(from.up.y as int, to.up.y as int, alpha);
    lemma_shares(from.up.z as int, to.up.z as int, alpha);
    assert(is_direction(up));
    let ahead = mix(from.forward, 1_000_000 - alpha, to.forward, alpha, none, 0);
    law_a_mix_is_the_sum_of_its_parts(from.forward, 1_000_000 - alpha, to.forward, alpha, none, 0);
    lemma_unit_or_bound(ahead, to.forward);
    let k = along(b.forward, up);
    lemma_product_bound(b.forward.x as int, up.x as int, 2_000_000, 2_000_000);
    lemma_product_bound(b.forward.y as int, up.y as int, 2_000_000, 2_000_000);
    lemma_product_bound(b.forward.z as int, up.z as int, 2_000_000, 2_000_000);
    assert(-12_000_000 <= k <= 12_000_000);
    let level = mix(up, 1_000_000, b.forward, -k, none, 0);
    law_a_mix_is_the_sum_of_its_parts(up, 1_000_000, b.forward, -k, none, 0);
    let (x, y, z) = (b.forward.x as int, b.forward.y as int, b.forward.z as int);
    assert((-k) * x == -(k * x) && (-k) * y == -(k * y) && (-k) * z == -(k * z))
        by (nonlinear_arith);
    assert(b.up == unit_or(level, up));
}

proof fn lemma_shares(a: int, b: int, alpha: int)
    requires
        -2_000_000 <= a <= 2_000_000,
        -2_000_000 <= b <= 2_000_000,
        0 <= alpha <= 1_000_000,
    ensures
        -2_000_000_000_000 <= (1_000_000 - alpha) * a + alpha * b <= 2_000_000_000_000,
{
    assert((1_000_000 - alpha) * a <= (1_000_000 - alpha) * 2_000_000) by (nonlinear_arith)
        requires
            a <= 2_000_000,
            alpha <= 1_000_000,
    ;
    assert((1_000_000 - alpha) * a >= (1_000_000 - alpha) * (-2_000_000)) by (nonlinear_arith)
        requires
            a >= -2_000_000,
            alpha <= 1_000_000,
    ;
    assert(alpha * b <= alpha * 2_000_000) by (nonlinear_arith)
        requires
            b <= 2_000_000,
            alpha >= 0,
    ;
    assert(alpha * b >= alpha * (-2_000_000)) by (nonlinear_arith)
        requires
            b >= -2_000_000,
            alpha >= 0,
    ;
}

proof fn lemma_unit_or_bound(v: Point, other: Point)
    requires
        v.within(1_000_000_000),
        is_direction(other),
    ensures
        is_direction(unit_or(v, other)),
{
    crate::geom::lemma_direction_bound(v);
    assert(v.direction() == v.unit());
}

/// Level and without a glance the eye stands behind the craft and above it: against its way
/// ahead along each axis, and up.
pub proof fn law_the_camera_is_behind_and_above(forward: Point)
    requires
        is_direction(forward),
        forward.y == 0,
    ensures
        ({
            let none = Heading { cos: 1_000_000, sin: 0 };
            let out = way_out(Basis { forward, up: Point { x: 0, y: 1_000_000, z: 0 } }, none, none);
            &&& out.y > 0
            &&& forward.x >= 2 ==> out.x <= 0
            &&& forward.x <= -2 ==> out.x >= 0
            &&& forward.z >= 2 ==> out.z <= 0
            &&& forward.z <= -2 ==> out.z >= 0
        }),
{
    let none = Point { x: 0, y: 0, z: 0 };
    let still = Heading { cos: 1_000_000, sin: 0 };
    let basis = Basis { forward, up: Point { x: 0, y: 1_000_000, z: 0 } };
    let m = mix(forward, -ELEVATION_COS, basis.up, ELEVATION_SIN as int, none, 0);
    law_a_mix_is_the_sum_of_its_parts(
        forward,
        -ELEVATION_COS,
        basis.up,
        ELEVATION_SIN as int,
        none,
        0,
    );
    lemma_by(-ELEVATION_COS, forward.x as int);
    lemma_by(-ELEVATION_COS, forward.z as int);
    lemma_by(-ELEVATION_COS, 0);
    lemma_by_nothing(ELEVATION_SIN as int, basis.up.x as int);
    lemma_by_nothing(ELEVATION_SIN as int, basis.up.z as int);
    lemma_by_nothing(0, none.x as int);
    lemma_by_nothing(0, none.z as int);
    assert(1_000_000 * m.x <= -829_038 * forward.x < 1_000_000 * m.x + 1_000_000);
    assert(1_000_000 * m.z <= -829_038 * forward.z < 1_000_000 * m.z + 1_000_000);
    assert(m.y == 559_193);
    let astern = unit_or(m, basis.up);
    lemma_unit_signs(m, basis.up);
    law_no_glance_no_turn(basis.up, astern);
    let swung = unit_or(astern, astern);
    lemma_unit_signs(astern, astern);
    let right = right_of(basis);
    law_no_glance_no_turn(basis.up, right);
    let axis = unit_or(right, right);
    law_no_glance_no_turn(axis, swung);
    lemma_unit_signs(swung, swung);
    assert(way_out(basis, still, still) == unit_or(swung, swung));
}

/// A unit vector has the signs of the vector, and no coordinate of it is much shorter than an
/// eighteenth of the vector's.
proof fn lemma_unit_signs(v: Point, other: Point)
    requires
        v.within(10_000_000),
        v.x != 0 || v.y != 0 || v.z != 0,
    ensures
        ({
            let u = unit_or(v, other);
            &&& v.x >= 0 ==> u.x >= 0 && 18 * (u.x + 1) > v.x
            &&& v.x <= 0 ==> u.x <= 0 && 18 * (1 - u.x) > -v.x
            &&& v.y >= 0 ==> u.y >= 0 && 18 * (u.y + 1) > v.y
            &&& v.y <= 0 ==> u.y <= 0 && 18 * (1 - u.y) > -v.y
            &&& v.z >= 0 ==> u.z >= 0 && 18 * (u.z + 1) > v.z
            &&& v.z <= 0 ==> u.z <= 0 && 18 * (1 - u.z) > -v.z
            &&& u.within(2_000_000)
        }),
{
    let (x, y, z) = (v.x as int, v.y as int, v.z as int);
    lemma_square_of(x);
    lemma_square_of(y);
    lemma_square_of(z);
    let n = v.len2();
    crate::geom::lemma_floor_sqrt_exists((1_000_000_000_000 * n) as nat);
    let m = crate::geom::floor_sqrt((1_000_000_000_000 * n) as nat) as int;
    crate::geom::law_a_unit_vector_keeps_the_direction(v, m);
    crate::geom::lemma_direction_bound(v);
    lemma_length_bound(x, y, z);
    assert(m < 18_000_000_000_000) by (nonlinear_arith)
        requires
            m * m <= 300_000_000_000_000_000_000_000_000,
            m >= 0,
    ;
    let u = v.unit();
    lemma_not_lost(x, u.x as int, m);
    lemma_not_lost(y, u.y as int, m);
    lemma_not_lost(z, u.z as int, m);
}

proof fn lemma_square_of(x: int)
    ensures
        x * x >= 0,
        x != 0 ==> x * x > 0,
{
    assert(x * x >= 0) by (nonlinear_arith);
    assert(x != 0 ==> x * x > 0) by (nonlinear_arith);
}

proof fn lemma_not_lost(v: int, u: int, m: int)
    requires
        0 <= m < 18_000_000_000_000,
        v >= 0 ==> u >= 0 && m * u <= 1_000_000_000_000 * v < m * u + m,
        v <= 0 ==> u <= 0 && m * u - m < 1_000_000_000_000 * v <= m * u,
    ensures
        v >= 0 ==> 18 * (u + 1) > v,
        v <= 0 ==> 18 * (1 - u) > -v,
{
    if v >= 0 {
        let w = u + 1;
        assert(m * u + m == m * w) by (nonlinear_arith)
            requires
                w == u + 1,
        ;
        assert(m * w <= 18_000_000_000_000 * w) by (nonlinear_arith)
            requires
                m <= 18_000_000_000_000,
                w >= 0,
        ;
    } else {
        let w = 1 - u;
        assert(m * u - m == -(m * w)) by (nonlinear_arith)
            requires
                w == 1 - u,
        ;
        assert(m * w <= 18_000_000_000_000 * w) by (nonlinear_arith)
            requires
                m <= 18_000_000_000_000,
                w >= 0,
        ;
    }
}

proof fn lemma_by_nothing(k: int, v: int)
    requires
        v == 0,
    ensures
        k * v == 0,
{
    assert(k * v == 0) by (nonlinear_arith)
        requires
            v == 0,
    ;
}

proof fn lemma_by(k: int, v: int)
    requires
        k == -829_038,
    ensures
        k * v == -829_038 * v,
{
    assert(k * v == -829_038 * v) by (nonlinear_arith)
        requires
            k == -829_038,
    ;
}

proof fn lemma_length_bound(x: int, y: int, z: int)
    requires
        -10_000_000 <= x <= 10_000_000,
        -10_000_000 <= y <= 10_000_000,
        -10_000_000 <= z <= 10_000_000,
    ensures
        x * x + y * y + z * z <= 300_000_000_000_000,
{
    lemma_product_bound(x, x, 10_000_000, 10_000_000);
    lemma_product_bound(y, y, 10_000_000, 10_000_000);
    lemma_product_bound(z, z, 10_000_000, 10_000_000);
}

/// The craft rides below the centre of the view: a camera level with it looks up, off the craft.
pub proof fn law_the_craft_rides_below_the_centre(forward: Point, out: Point)
    requires
        is_direction(forward),
        is_direction(out),
        out.y == 0,
        out.z <= -900_000,
    ensures
        aim_of(Basis { forward, up: Point { x: 0, y: 1_000_000, z: 0 } }, out).y > 0,
{
    let up = Point { x: 0, y: 1_000_000, z: 0 };
    let basis = Basis { forward, up };
    let v = Point { x: (-out.x) as i64, y: (-out.y) as i64, z: (-out.z) as i64 };
    let u = unit_or(v, forward);
    lemma_unit_signs(v, forward);
    assert(u.y == 0 && u.z >= 50_000);
    let w = square_to(u, up);
    lemma_across(u);
    assert(w == (Point { x: (-u.z) as i64, y: 0, z: u.x }));
    let r = unit_or(w, right_of(basis));
    lemma_unit_signs(w, right_of(basis));
    assert(r.y == 0 && r.x <= -2_777);
    let s = square_to(r, u);
    let (rx, rz, ux, uz) = (r.x as int, r.z as int, u.x as int, u.z as int);
    lemma_by_nothing(rx, u.y as int);
    lemma_by_nothing(rz, u.y as int);
    lemma_by_nothing(ux, r.y as int);
    lemma_by_nothing(uz, r.y as int);
    lemma_commutes(ux, r.y as int);
    lemma_commutes(uz, r.y as int);
    assert(s.x == 0 && s.z == 0);
    assert(rz * ux >= 0) by (nonlinear_arith)
        requires
            ux >= 0 && rz >= 0 || ux <= 0 && rz <= 0,
    ;
    assert(rx * uz <= -138_000_000) by (nonlinear_arith)
        requires
            rx <= -2_777,
            uz >= 50_000,
    ;
    lemma_product_bound(rz, ux, 2_000_000, 2_000_000);
    lemma_product_bound(rx, uz, 2_000_000, 2_000_000);
    assert(138 <= s.y <= 8_000_000);
    let along_r = along(r, u);
    assert(-12_000_000 <= along_r <= 12_000_000) by {
        lemma_product_bound(r.x as int, u.x as int, 2_000_000, 2_000_000);
        lemma_product_bound(r.y as int, u.y as int, 2_000_000, 2_000_000);
        lemma_product_bound(r.z as int, u.z as int, 2_000_000, 2_000_000);
    }
    let k = (along_r * (1_000_000 - BELOW_COS)) / 1_000_000;
    assert(along_r * (1_000_000 - BELOW_COS) == 21_852 * along_r) by (nonlinear_arith);
    assert(-300_000 <= k <= 300_000);
    let t = turned_about(r, Heading { cos: BELOW_COS, sin: BELOW_SIN }, u);
    assert(t == mix(u, BELOW_COS as int, s, BELOW_SIN as int, r, k));
    law_a_mix_is_the_sum_of_its_parts(u, BELOW_COS as int, s, BELOW_SIN as int, r, k);
    lemma_product_bound(BELOW_COS as int, ux, 1_000_000, 2_000_000);
    lemma_product_bound(BELOW_COS as int, uz, 1_000_000, 2_000_000);
    lemma_product_bound(k, rx, 300_000, 2_000_000);
    lemma_product_bound(k, rz, 300_000, 2_000_000);
    lemma_by_nothing(BELOW_COS as int, u.y as int);
    lemma_by_nothing(k, r.y as int);
    lemma_by_nothing(BELOW_SIN as int, s.x as int);
    lemma_by_nothing(BELOW_SIN as int, s.z as int);
    let sy = s.y as int;
    assert(207_912 * 138 <= BELOW_SIN * sy <= 207_912 * 8_000_000) by (nonlinear_arith)
        requires
            138 <= sy <= 8_000_000,
            BELOW_SIN == 207_912,
    ;
    assert(t.y >= 28);
    lemma_unit_signs(t, u);
}

proof fn lemma_across(u: Point)
    requires
        is_direction(u),
    ensures
        square_to(u, Point { x: 0, y: 1_000_000, z: 0 }) == (Point {
            x: (-u.z) as i64,
            y: 0,
            z: u.x,
        }),
{
    let (x, y, z) = (u.x as int, u.y as int, u.z as int);
    assert(y * 0 == 0 && x * 0 == 0 && z * 0 == 0);
    assert(z * 1_000_000 == 1_000_000 * z && x * 1_000_000 == 1_000_000 * x);
    assert((0 - 1_000_000 * z) / 1_000_000 == -z);
}

/// A glance swings the eye about the craft. Behind a craft that flies along z, a turn of the view
/// to one side takes the eye to the other side of the axis, and half a turn in front.
pub proof fn law_a_glance_swings_the_eye(yaw: Heading)
    requires
        yaw.valid(),
    ensures
        ({
            let basis = Basis {
                forward: Point { x: 0, y: 0, z: 1_000_000 },
                up: Point { x: 0, y: 1_000_000, z: 0 },
            };
            let out = way_out(basis, yaw, Heading { cos: 1_000_000, sin: 0 });
            &&& yaw.sin >= 100_000 ==> out.x < 0
            &&& yaw.sin <= -100_000 ==> out.x > 0
            &&& yaw.cos >= 100_000 ==> out.z < 0
            &&& yaw.cos <= -100_000 ==> out.z > 0
            &&& out.y > 0
        }),
{
    let basis = Basis {
        forward: Point { x: 0, y: 0, z: 1_000_000 },
        up: Point { x: 0, y: 1_000_000, z: 0 },
    };
    let still = Heading { cos: 1_000_000, sin: 0 };
    let a = lemma_astern(basis);
    law_a_turn_about_y(yaw, a);
    let t = turned_about(basis.up, yaw, a);
    let (az, c, s) = (a.z as int, yaw.cos as int, yaw.sin as int);
    lemma_by_nothing(c, a.x as int);
    lemma_by_nothing(s, a.x as int);
    lemma_commutes(c, a.x as int);
    lemma_commutes(s, a.x as int);
    lemma_product_bound(az, c, 2_000_000, 1_000_000);
    lemma_product_bound(az, s, 2_000_000, 1_000_000);
    lemma_far(az, s);
    lemma_far(az, c);
    lemma_unit_signs(t, a);
    let w = unit_or(t, a);
    assert(w.y >= 1_600);
    lemma_unit_signs(w, w);
    let right = right_of(basis);
    law_no_glance_no_turn(unit_or(turned_about(basis.up, yaw, right), right), w);
    assert(way_out(basis, yaw, still) == unit_or(w, w));
}

proof fn lemma_far(z: int, k: int)
    requires
        z <= -46_000,
    ensures
        k >= 100_000 ==> z * k <= -4_600_000_000,
        k <= -100_000 ==> z * k >= 4_600_000_000,
{
    assert(k >= 100_000 ==> z * k <= -4_600_000_000) by (nonlinear_arith)
        requires
            z <= -46_000,
    ;
    assert(k <= -100_000 ==> z * k >= 4_600_000_000) by (nonlinear_arith)
        requires
            z <= -46_000,
    ;
}

/// The way out behind a craft that flies along z.
proof fn lemma_astern(basis: Basis) -> (a: Point)
    requires
        basis.forward == (Point { x: 0, y: 0, z: 1_000_000 }),
        basis.up == (Point { x: 0, y: 1_000_000, z: 0 }),
    ensures
        a == unit_or(
            mix(
                basis.forward,
                -ELEVATION_COS,
                basis.up,
                ELEVATION_SIN as int,
                Point { x: 0, y: 0, z: 0 },
                0,
            ),
            basis.up,
        ),
        a.x == 0,
        a.y >= 31_000,
        a.z <= -46_000,
        is_direction(a),
{
    let none = Point { x: 0, y: 0, z: 0 };
    let m = mix(basis.forward, -ELEVATION_COS, basis.up, ELEVATION_SIN as int, none, 0);
    assert(m == (Point { x: 0, y: 559_193, z: (-829_038) as i64 }));
    lemma_unit_signs(m, basis.up);
    unit_or(m, basis.up)
}

/// A glance up or down swings the eye down or up: behind a craft that flies along z, a quarter
/// turn one way takes it below the craft, and one the other way above.
pub proof fn law_a_glance_raises_the_eye(pitch: Heading)
    requires
        pitch.valid(),
    ensures
        ({
            let basis = Basis {
                forward: Point { x: 0, y: 0, z: 1_000_000 },
                up: Point { x: 0, y: 1_000_000, z: 0 },
            };
            let out = way_out(basis, Heading { cos: 1_000_000, sin: 0 }, pitch);
            &&& pitch.sin >= 100_000 && pitch.cos <= 0 ==> out.y < 0
            &&& pitch.sin <= -100_000 && pitch.cos >= 0 ==> out.y > 0
        }),
{
    let (up, none) = (Point { x: 0, y: 1_000_000, z: 0 }, Point { x: 0, y: 0, z: 0 });
    let basis = Basis { forward: Point { x: 0, y: 0, z: 1_000_000 }, up };
    let still = Heading { cos: 1_000_000, sin: 0 };
    let a = lemma_astern(basis);
    law_no_glance_no_turn(up, a);
    let w = unit_or(a, a);
    lemma_unit_signs(a, a);
    assert(w.z <= -2_500 && w.y >= 1_700);
    let right = right_of(basis);
    lemma_across(basis.forward);
    let left = Point { x: (-1_000_000) as i64, y: 0, z: 0 };
    lemma_left_is_unit();
    assert(right == left);
    law_no_glance_no_turn(up, right);
    let axis = unit_or(right, right);
    assert(axis == left);
    let t = turned_about(axis, pitch, w);
    law_square_to_is_right_handed((-1) as i64, w);
    let s = square_to(axis, w);
    assert(s == (Point { x: 0, y: w.z, z: (-w.y) as i64 }));
    let k = along(axis, w);
    assert(k == -w.x) by {
        let (p, q, r) = (axis.x as int, axis.y as int, axis.z as int);
        let (x, y, z) = (w.x as int, w.y as int, w.z as int);
        assert(p * x == -1_000_000 * x) by (nonlinear_arith)
            requires
                p == -1_000_000,
        ;
        lemma_by_nothing(y, q);
        lemma_by_nothing(z, r);
        lemma_commutes(y, q);
        lemma_commutes(z, r);
    }
    let q = (k * (1_000_000 - pitch.cos)) / 1_000_000;
    lemma_product_bound(k, 1_000_000 - pitch.cos, 2_000_000, 2_000_000);
    law_a_mix_is_the_sum_of_its_parts(w, pitch.cos as int, s, pitch.sin as int, axis, q);
    assert(t == mix(w, pitch.cos as int, s, pitch.sin as int, axis, q));
    lemma_by_nothing(q, axis.y as int);
    lemma_by_nothing(q, axis.z as int);
    let (c, n) = (pitch.cos as int, pitch.sin as int);
    let (wy, wz) = (w.y as int, w.z as int);
    lemma_product_bound(c, wy, 1_000_000, 2_000_000);
    lemma_product_bound(n, wz, 1_000_000, 2_000_000);
    lemma_product_bound(c, wz, 1_000_000, 2_000_000);
    lemma_product_bound(n, s.z as int, 1_000_000, 2_000_000);
    lemma_product_bound(c, w.x as int, 1_000_000, 2_000_000);
    lemma_product_bound(q, axis.x as int, 4_000_000, 1_000_000);
    lemma_by_nothing(n, s.x as int);
    assert(t.within(10_000_000));
    assert(n >= 100_000 && c <= 0 ==> c * wy <= 0 && n * wz <= -250_000_000) by (nonlinear_arith)
        requires
            wy >= 0,
            wz <= -2_500,
    ;
    assert(n <= -100_000 && c >= 0 ==> c * wy >= 0 && n * wz >= 250_000_000) by (nonlinear_arith)
        requires
            wy >= 0,
            wz <= -2_500,
    ;
    if n >= 100_000 && c <= 0 || n <= -100_000 && c >= 0 {
        lemma_unit_signs(t, w);
    }
    assert(way_out(basis, still, pitch) == unit_or(t, w));
}

proof fn lemma_left_is_unit()
    ensures
        ({
            let left = Point { x: (-1_000_000) as i64, y: 0, z: 0 };
            left.unit() == left
        }),
{
    let left = Point { x: (-1_000_000) as i64, y: 0, z: 0 };
    let m = 1_000_000_000_000int;
    assert(left.len2() == 1_000_000_000_000) by {
        assert((-1_000_000int) * (-1_000_000int) == 1_000_000_000_000) by (nonlinear_arith);
    }
    assert(m * m == 1_000_000_000_000 * 1_000_000_000_000) by (nonlinear_arith)
        requires
            m == 1_000_000_000_000,
    ;
    assert((m + 1) * (m + 1) > m * m) by (nonlinear_arith)
        requires
            m == 1_000_000_000_000,
    ;
    crate::geom::law_a_unit_vector_keeps_the_direction(left, m);
    let u = left.unit();
    lemma_exactly(m, u.x as int, -1_000_000);
}

proof fn lemma_exactly(m: int, u: int, v: int)
    requires
        m == 1_000_000_000_000,
        m * u - m < 1_000_000_000_000 * v <= m * u,
    ensures
        u == v,
{
}

} // verus!
