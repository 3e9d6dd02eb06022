//! What the water's forces do to a body: they lift what is under it, and resist what moves.
//!
//! Every law speaks of exact quantities of the body and its motion; a force is within its last
//! micronewton of what they give.

use super::forces::{body_drag_at, body_resistance, body_torque_at, buoyant_lift, cell_drag};
use super::forces::{cell_force_at, face_force_at, face_valid, friction, lemma_floor_cbrt_unique};
use super::forces::{normal_drag, normal_speed, pressure_lift, speed_of, tangential_velocity};
use super::forces::{turning_resistance, WetCell, WetFace, COEFF_LIMIT, FRICTION_LIMIT};
use super::forces::VELOCITY_LIMIT;
use super::hydro::{magnitude, Buoyancy, HULL_LIMIT, SHAPE_LIMIT};
use super::{SimParams, WATER_LEVEL};
use crate::geom::{floor_sqrt, lemma_floor_sqrt_unique};
use crate::geom::{lemma_product_bound, Point};
use vstd::prelude::*;

verus! {

// ---- Rounded products ----------------------------------------------------------------

/// What rounding down to millionths keeps of a product.
proof fn lemma_millionth(a: int, b: int, la: int, lb: int, limit: int)
    requires
        -la <= a <= la,
        -lb <= b <= lb,
        la * lb <= 1_000_000 * limit,
    ensures
        -limit <= (a * b) / 1_000_000 <= limit,
        a >= 0 && b >= 0 ==> (a * b) / 1_000_000 >= 0,
        a >= 0 && b <= 0 ==> (a * b) / 1_000_000 <= 0,
        a * b - 1_000_000 < 1_000_000 * ((a * b) / 1_000_000) <= a * b,
{
    lemma_product_bound(a, b, la, lb);
    lemma_signs(a, b);
}

proof fn lemma_signs(a: int, b: int)
    ensures
        a >= 0 && b >= 0 ==> a * b >= 0,
        a >= 0 && b <= 0 ==> a * b <= 0,
        a <= 0 && b >= 0 ==> a * b <= 0,
        a <= 0 && b <= 0 ==> a * b >= 0,
{
    assert(a >= 0 && b >= 0 ==> a * b >= 0) by (nonlinear_arith);
    assert(a >= 0 && b <= 0 ==> a * b <= 0) by (nonlinear_arith);
    assert(a <= 0 && b >= 0 ==> a * b <= 0) by (nonlinear_arith);
    assert(a <= 0 && b <= 0 ==> a * b >= 0) by (nonlinear_arith);
}

/// A force against `x`, rounded.
proof fn lemma_against(x: int, d: int)
    requires
        0 < d,
    ensures
        -x <= d * (-(x / d)) < -x + d,
        x >= 0 ==> -(x / d) <= 0,
        x <= 0 ==> -(x / d) >= 0,
{
    vstd::arithmetic::div_mod::lemma_fundamental_div_mod(x, d);
    let q = x / d;
    assert(d * (-q) == -(d * q)) by (nonlinear_arith);
    assert(x >= 0 ==> q >= 0) by (nonlinear_arith)
        requires
            q == x / d,
            0 < d,
    ;
    assert(x <= 0 ==> q <= 0) by (nonlinear_arith)
        requires
            q == x / d,
            0 < d,
    ;
}

/// What rounding can make of a product of `a` and three factors, the last two of which are `c`
/// and `e`, as a force along `t`.
pub open spec fn force_blur(c: int, e: int, t: int) -> int {
    500 * (magnitude(t) * (1_000_000 * (c * magnitude(e)) + 1_000_000_000_000 * magnitude(e)
        + 1_000_000_000_000_000_000)) + 1_000_000_000_000_000_000_000_000_000_000
}

proof fn lemma_chain(a: int, b: int, c: int, e: int)
    requires
        0 <= c,
    ensures
        ({
            let q = ((((a * b) / 1_000_000) * c) / 1_000_000 * e) / 1_000_000;
            let slip = 1_000_000 * (c * magnitude(e)) + 1_000_000_000_000 * magnitude(e)
                + 1_000_000_000_000_000_000;
            -slip <= 1_000_000_000_000_000_000 * q - a * b * c * e <= slip
        }),
{
    let x = a * b;
    let p = x / 1_000_000;
    let k = (p * c) / 1_000_000;
    let q = (k * e) / 1_000_000;
    let (f, g, h) = (x - 1_000_000 * p, p * c - 1_000_000 * k, k * e - 1_000_000 * q);
    let ce = c * e;
    assert((1_000_000 * p + f) * ce == 1_000_000 * (p * ce) + f * ce) by (nonlinear_arith);
    assert(p * (c * e) == (p * c) * e) by (nonlinear_arith);
    assert((1_000_000 * k + g) * e == 1_000_000 * (k * e) + g * e) by (nonlinear_arith);
    assert((x * c) * e == x * (c * e)) by (nonlinear_arith);
    let m = magnitude(e);
    let cm = c * m;
    assert(-cm <= ce <= cm && 0 <= cm) by {
        lemma_product_bound(c, e, c, m);
        lemma_signs(c, m);
    }
    lemma_product_bound(f, ce, 1_000_000, cm);
    lemma_product_bound(g, e, 1_000_000, m);
}

/// The force `-500 q t`, for a rounded product `q` of `a`, `b`, `c` and `e`.
proof fn lemma_force(a: int, b: int, c: int, e: int, t: int)
    requires
        0 <= a,
        0 <= b,
        0 <= c,
    ensures
        ({
            let q = ((((a * b) / 1_000_000) * c) / 1_000_000 * e) / 1_000_000;
            let f = -((q * t * 500) / 1_000_000_000_000);
            &&& -force_blur(c, e, t) <= 1_000_000_000_000_000_000_000_000_000_000 * f + 500 * (a * b
                * c * e * t) <= force_blur(c, e, t)
            &&& e >= 0 ==> f * t <= 0
            &&& e <= 0 ==> f * t >= 0
        }),
{
    let p = (a * b) / 1_000_000;
    let k = (p * c) / 1_000_000;
    let q = (k * e) / 1_000_000;
    let f = -((q * t * 500) / 1_000_000_000_000);
    lemma_signs(a, b);
    lemma_signs(p, c);
    lemma_signs(k, e);
    lemma_signs(q, t);
    lemma_chain(a, b, c, e);
    lemma_against(q * t * 500, 1_000_000_000_000);
    lemma_signs(f, t);
    let y = a * b * c * e;
    let slip = 1_000_000 * (c * magnitude(e)) + 1_000_000_000_000 * magnitude(e)
        + 1_000_000_000_000_000_000;
    let d = 1_000_000_000_000_000_000 * q - y;
    lemma_product_bound(t, d, magnitude(t), slip);
    assert(t * (1_000_000_000_000_000_000 * q - y) == 1_000_000_000_000_000_000 * (q * t) - y * t)
        by (nonlinear_arith);
}

// ---- Wet faces -----------------------------------------------------------------------

/// How much of `v` runs along `n`, in millionths of millionths.
pub open spec fn along(v: Point, n: Point) -> int {
    v.x * n.x + v.y * n.y + v.z * n.z
}

proof fn lemma_normal_speed(v: Point, n: Point)
    requires
        v.within(VELOCITY_LIMIT as int),
        n.within(1_002_000),
    ensures
        -0x4000_0000 <= normal_speed(v, n) <= 0x4000_0000,
        1_000_000 * normal_speed(v, n) <= along(v, n) < 1_000_000 * normal_speed(v, n) + 1_000_000,
{
    lemma_product_bound(v.x as int, n.x as int, VELOCITY_LIMIT as int, 1_002_000);
    lemma_product_bound(v.y as int, n.y as int, VELOCITY_LIMIT as int, 1_002_000);
    lemma_product_bound(v.z as int, n.z as int, VELOCITY_LIMIT as int, 1_002_000);
}

/// No part of the force on a face is too large to add up.
proof fn lemma_normal_drag_size(face: WetFace, c: int, s: int, n: int)
    requires
        face_valid(face),
        0 <= c <= COEFF_LIMIT,
        -0x4000_0000 <= s <= 0x4000_0000,
        -1_002_000 <= n <= 1_002_000,
    ensures
        -0x1000_0000_0000_0000_0000_0000_0000 <= normal_drag(face, c, s, n)
            <= 0x1000_0000_0000_0000_0000_0000_0000,
{
    let m = magnitude(s);
    let a = (face.area * c) / 1_000_000;
    let k = (a * m) / 1_000_000;
    let q = (k * s) / 1_000_000;
    lemma_millionth(
        face.area as int,
        c,
        0x4000_0000_0000_0000,
        0x40_0000,
        0x2_0000_0000_0000_0000,
    );
    lemma_millionth(a, m, 0x2_0000_0000_0000_0000, 0x4000_0000, 0x1000_0000_0000_0000_0000);
    lemma_millionth(
        k,
        s,
        0x1000_0000_0000_0000_0000,
        0x4000_0000,
        0x100_0000_0000_0000_0000_0000,
    );
    lemma_product_bound(q, n, 0x100_0000_0000_0000_0000_0000, 1_002_000);
}

proof fn lemma_friction_size(face: WetFace, cf: int, c: int, s: int, t: int)
    requires
        face_valid(face),
        0 <= cf <= FRICTION_LIMIT,
        0 <= c <= COEFF_LIMIT,
        0 <= s <= 0xc000_0000,
        -0x6000_0000 <= t <= 0x6000_0000,
    ensures
        -0x1000_0000_0000_0000_0000_0000_0000 <= friction(face, cf, c, s, t)
            <= 0x1000_0000_0000_0000_0000_0000_0000,
{
    let a = (face.area * cf) / 1_000_000;
    let k = (a * c) / 1_000_000;
    let q = (k * s) / 1_000_000;
    lemma_millionth(
        face.area as int,
        cf,
        0x4000_0000_0000_0000,
        0x2_0000,
        0x1000_0000_0000_0000,
    );
    lemma_millionth(a, c, 0x1000_0000_0000_0000, 0x40_0000, 0x8000_0000_0000_0000);
    lemma_millionth(k, s, 0x8000_0000_0000_0000, 0xc000_0000, 0x1_0000_0000_0000_0000_0000);
    lemma_product_bound(q, t, 0x1_0000_0000_0000_0000_0000, 0x6000_0000);
}

proof fn lemma_pressure_size(face: WetFace)
    requires
        face_valid(face),
    ensures
        -0x1000_0000_0000_0000_0000_0000_0000 <= pressure_lift(face)
            <= 0x1000_0000_0000_0000_0000_0000_0000,
{
    let d = WATER_LEVEL - face.at.y;
    lemma_product_bound(d, face.area as int, HULL_LIMIT as int, 0x4000_0000_0000_0000);
    lemma_product_bound(
        d * face.area,
        face.normal.y as int,
        0x100_0000_0000_0000_0000_0000,
        1_002_000,
    );
}

proof fn lemma_tangent_size(v: Point, n: Point)
    requires
        v.within(VELOCITY_LIMIT as int),
        n.within(1_002_000),
    ensures
        tangential_velocity(v, n).within(0x6000_0000),
        floor_sqrt(tangential_velocity(v, n).len2() as nat) <= 0xc000_0000,
        tangential_velocity(v, n).len2() >= 0,
{
    lemma_normal_speed(v, n);
    let s = normal_speed(v, n);
    lemma_product_bound(n.x as int, s, 1_002_000, 0x4000_0000);
    lemma_product_bound(n.y as int, s, 1_002_000, 0x4000_0000);
    lemma_product_bound(n.z as int, s, 1_002_000, 0x4000_0000);
    super::forces::lemma_length_bound(tangential_velocity(v, n), 0x6000_0000);
}

/// The parts of the force on a face, along each axis.
proof fn lemma_face_parts(face: WetFace, params: SimParams, c_f: int, v: Point)
    requires
        face_valid(face),
        params.drag_coeff <= COEFF_LIMIT,
        params.pressure_drag_coeff <= COEFF_LIMIT,
        0 <= c_f <= FRICTION_LIMIT,
        v.within(VELOCITY_LIMIT as int),
    ensures
        ({
            let f = face_force_at(face, params, c_f, v);
            let s = normal_speed(v, face.normal);
            let t = tangential_velocity(v, face.normal);
            let m = floor_sqrt(t.len2() as nat) as int;
            let (c, pc) = (params.drag_coeff as int, params.pressure_drag_coeff as int);
            let viscous = |axis: int| if params.drag_on { friction(face, c_f, c, m, axis) } else { 0 };
            let pressed = |axis: int|
                if params.pressure_drag_on { normal_drag(face, pc, s, axis) } else { 0 };
            &&& f.x == viscous(t.x as int) + pressed(face.normal.x as int)
            &&& f.y == pressure_lift(face) + viscous(t.y as int) + pressed(face.normal.y as int)
            &&& f.z == viscous(t.z as int) + pressed(face.normal.z as int)
        }),
{
    let s = normal_speed(v, face.normal);
    let t = tangential_velocity(v, face.normal);
    let m = floor_sqrt(t.len2() as nat) as int;
    let (c, pc) = (params.drag_coeff as int, params.pressure_drag_coeff as int);
    lemma_normal_speed(v, face.normal);
    lemma_tangent_size(v, face.normal);
    lemma_pressure_size(face);
    lemma_friction_size(face, c_f, c, m, t.x as int);
    lemma_friction_size(face, c_f, c, m, t.y as int);
    lemma_friction_size(face, c_f, c, m, t.z as int);
    lemma_normal_drag_size(face, pc, s, face.normal.x as int);
    lemma_normal_drag_size(face, pc, s, face.normal.y as int);
    lemma_normal_drag_size(face, pc, s, face.normal.z as int);
}

/// Pressure drag resists a face that moves into the water and holds back one that retreats: it
/// does no work on the body, along any axis. It is half the water's density times the area, the
/// coefficient and the square of the speed `s` along the normal.
pub proof fn law_pressure_drag_resists_the_flow(
    face: WetFace,
    params: SimParams,
    c_f: int,
    v: Point,
    s: int,
)
    requires
        face_valid(face),
        params.drag_coeff <= COEFF_LIMIT,
        params.pressure_drag_coeff <= COEFF_LIMIT,
        0 <= c_f <= FRICTION_LIMIT,
        v.within(VELOCITY_LIMIT as int),
        1_000_000 * s <= along(v, face.normal) < 1_000_000 * s + 1_000_000,
    ensures
        ({
            let with = face_force_at(face, SimParams { pressure_drag_on: true, ..params }, c_f, v);
            let without = face_force_at(face, SimParams { pressure_drag_on: false, ..params }, c_f, v);
            let (x, y, z) = (with.x - without.x, with.y - without.y, with.z - without.z);
            let (n, c) = (face.normal, params.pressure_drag_coeff as int);
            let full = |axis: int| 500 * (face.area * c * magnitude(s) * s * axis);
            let e30 = 1_000_000_000_000_000_000_000_000_000_000int;
            &&& along(v, n) >= 0 ==> x * n.x <= 0 && y * n.y <= 0 && z * n.z <= 0
            &&& along(v, n) <= 0 ==> x * n.x >= 0 && y * n.y >= 0 && z * n.z >= 0
            &&& magnitude(e30 * x + full(n.x as int)) <= force_blur(magnitude(s), s, n.x as int)
            &&& magnitude(e30 * y + full(n.y as int)) <= force_blur(magnitude(s), s, n.y as int)
            &&& magnitude(e30 * z + full(n.z as int)) <= force_blur(magnitude(s), s, n.z as int)
        }),
{
    let (on, off) = (
        SimParams { pressure_drag_on: true, ..params },
        SimParams { pressure_drag_on: false, ..params },
    );
    lemma_face_parts(face, on, c_f, v);
    lemma_face_parts(face, off, c_f, v);
    lemma_normal_speed(v, face.normal);
    assert(s == normal_speed(v, face.normal));
    let (n, c, a) = (face.normal, params.pressure_drag_coeff as int, face.area as int);
    lemma_force(a, c, magnitude(s), s, n.x as int);
    lemma_force(a, c, magnitude(s), s, n.y as int);
    lemma_force(a, c, magnitude(s), s, n.z as int);
}

/// Skin friction runs against the flow along the face, which is `t` at the speed `m`: it is half
/// the water's density times the area, both coefficients, the speed and the flow itself.
pub proof fn law_friction_resists_the_flow_along_a_face(
    face: WetFace,
    params: SimParams,
    c_f: int,
    v: Point,
    s: int,
    t: Point,
    m: int,
)
    requires
        face_valid(face),
        params.drag_coeff <= COEFF_LIMIT,
        params.pressure_drag_coeff <= COEFF_LIMIT,
        0 <= c_f <= FRICTION_LIMIT,
        v.within(VELOCITY_LIMIT as int),
        1_000_000 * s <= along(v, face.normal) < 1_000_000 * s + 1_000_000,
        1_000_000 * (v.x - t.x) <= face.normal.x * s < 1_000_000 * (v.x - t.x) + 1_000_000,
        1_000_000 * (v.y - t.y) <= face.normal.y * s < 1_000_000 * (v.y - t.y) + 1_000_000,
        1_000_000 * (v.z - t.z) <= face.normal.z * s < 1_000_000 * (v.z - t.z) + 1_000_000,
        0 <= m,
        m * m <= t.x * t.x + t.y * t.y + t.z * t.z < (m + 1) * (m + 1),
    ensures
        ({
            let with = face_force_at(face, SimParams { drag_on: true, ..params }, c_f, v);
            let without = face_force_at(face, SimParams { drag_on: false, ..params }, c_f, v);
            let (x, y, z) = (with.x - without.x, with.y - without.y, with.z - without.z);
            let c = params.drag_coeff as int;
            let full = |axis: int| 500 * (face.area * c_f * c * m * axis);
            let e30 = 1_000_000_000_000_000_000_000_000_000_000int;
            &&& x * t.x <= 0 && y * t.y <= 0 && z * t.z <= 0
            &&& magnitude(e30 * x + full(t.x as int)) <= force_blur(c, m, t.x as int)
            &&& magnitude(e30 * y + full(t.y as int)) <= force_blur(c, m, t.y as int)
            &&& magnitude(e30 * z + full(t.z as int)) <= force_blur(c, m, t.z as int)
        }),
{
    let (on, off) = (
        SimParams { drag_on: true, ..params },
        SimParams { drag_on: false, ..params },
    );
    lemma_face_parts(face, on, c_f, v);
    lemma_face_parts(face, off, c_f, v);
    lemma_normal_speed(v, face.normal);
    let n = face.normal;
    assert(s == normal_speed(v, n));
    lemma_tangent_size(v, n);
    assert(t.x == v.x - (n.x * s) / 1_000_000);
    assert(t.y == v.y - (n.y * s) / 1_000_000);
    assert(t.z == v.z - (n.z * s) / 1_000_000);
    assert(t == tangential_velocity(v, n));
    lemma_floor_sqrt_unique(m as nat, t.len2() as nat);
    let (c, a) = (params.drag_coeff as int, face.area as int);
    lemma_force(a, c_f, c, m, t.x as int);
    lemma_force(a, c_f, c, m, t.y as int);
    lemma_force(a, c_f, c, m, t.z as int);
}

/// The pressure of the water on a face is the weight of the water above it, straight up where
/// the face looks down and straight down where it looks up, however it moves: the density times
/// gravity, the depth and the area.
pub proof fn law_pressure_lifts_what_faces_down(
    face: WetFace,
    params: SimParams,
    c_f: int,
    v: Point,
)
    requires
        face_valid(face),
        params.drag_coeff <= COEFF_LIMIT,
        params.pressure_drag_coeff <= COEFF_LIMIT,
        0 <= c_f <= FRICTION_LIMIT,
        v.within(VELOCITY_LIMIT as int),
        !params.drag_on,
        !params.pressure_drag_on,
    ensures
        ({
            let f = face_force_at(face, params, c_f, v);
            let depth = WATER_LEVEL - face.at.y;
            let weight = 9_810 * (depth * face.area * face.normal.y);
            &&& f.x == 0 && f.z == 0
            &&& depth >= 0 && face.normal.y <= 0 ==> f.y >= 0
            &&& depth >= 0 && face.normal.y >= 0 ==> f.y <= 0
            &&& 0 <= 1_000_000_000_000_000_000 * f.y + weight < 1_000_000_000_000_000_000
        }),
{
    lemma_face_parts(face, params, c_f, v);
    let depth = WATER_LEVEL - face.at.y;
    lemma_signs(depth, face.area as int);
    lemma_signs(depth * face.area, face.normal.y as int);
    lemma_against(depth * face.area * face.normal.y * 9_810, 1_000_000_000_000_000_000);
}

// ---- Cells ---------------------------------------------------------------------------

/// A wet cell is lifted by the weight of the water in its place, and by nothing else while it
/// does not move or drag is off.
pub proof fn law_a_cell_is_lifted_by_what_it_displaces(cell: WetCell, params: SimParams, v: Point)
    requires
        cell.volume <= 0x100_0000_0000_0000_0000,
        params.drag_coeff <= COEFF_LIMIT,
        !params.drag_on || (v.x == 0 && v.y == 0 && v.z == 0),
    ensures
        ({
            let f = cell_force_at(cell, params, v);
            &&& f.x == 0 && f.z == 0
            &&& 0 <= 9_810 * cell.volume - 1_000_000_000_000 * f.y < 1_000_000_000_000
        }),
{
    let k = (cell.volume * params.drag_coeff) / 1_000_000;
    assert(3 * k * 0 == 0);
}

/// The drag on a wet cell runs against its motion along every axis: three times its mass of
/// water, the coefficient and the speed.
pub proof fn law_a_cell_is_dragged_against_its_motion(cell: WetCell, params: SimParams, v: Point)
    requires
        cell.volume <= 0x100_0000_0000_0000_0000,
        params.drag_coeff <= COEFF_LIMIT,
        v.within(VELOCITY_LIMIT as int),
    ensures
        ({
            let with = cell_force_at(cell, SimParams { drag_on: true, ..params }, v);
            let without = cell_force_at(cell, SimParams { drag_on: false, ..params }, v);
            let (x, y, z) = (with.x - without.x, with.y - without.y, with.z - without.z);
            let mass = cell.volume * params.drag_coeff;
            let e21 = 1_000_000_000_000_000_000_000int;
            &&& x * v.x <= 0 && y * v.y <= 0 && z * v.z <= 0
            &&& magnitude(e21 * x + 3 * (mass * v.x)) <= 3_000_000 * magnitude(v.x as int) + e21
            &&& magnitude(e21 * y + 3 * (mass * v.y)) <= 3_000_000 * magnitude(v.y as int) + e21
            &&& magnitude(e21 * z + 3 * (mass * v.z)) <= 3_000_000 * magnitude(v.z as int) + e21
        }),
{
    let (volume, c) = (cell.volume as int, params.drag_coeff as int);
    lemma_cell_axis(volume, c, v.x as int);
    lemma_cell_axis(volume, c, v.y as int);
    lemma_cell_axis(volume, c, v.z as int);
}

proof fn lemma_cell_axis(volume: int, c: int, v: int)
    requires
        0 <= volume <= 0x100_0000_0000_0000_0000,
        0 <= c <= COEFF_LIMIT,
        -VELOCITY_LIMIT <= v <= VELOCITY_LIMIT,
    ensures
        ({
            let f = cell_drag(volume, c, v);
            let e21 = 1_000_000_000_000_000_000_000int;
            &&& f * v <= 0
            &&& magnitude(e21 * f + 3 * (volume * c * v)) <= 3_000_000 * magnitude(v) + e21
            &&& -0x1000_0000_0000_0000_0000_0000_0000 <= f <= 0x1000_0000_0000_0000_0000_0000_0000
        }),
{
    let k = (volume * c) / 1_000_000;
    let f = cell_drag(volume, c, v);
    lemma_millionth(volume, c, 0x100_0000_0000_0000_0000, 0x40_0000, 0x500_0000_0000_0000_0000);
    lemma_signs(k, v);
    lemma_signs(f, v);
    assert(3 * k * v == 3 * (k * v)) by (nonlinear_arith);
    lemma_against(3 * k * v, 1_000_000_000_000_000);
    let e = volume * c - 1_000_000 * k;
    let m = magnitude(v);
    lemma_product_bound(e, v, 1_000_000, m);
    assert((1_000_000 * k + e) * v == 1_000_000 * (k * v) + e * v) by (nonlinear_arith);
    lemma_product_bound(3 * k, v, 0xf00_0000_0000_0000_0000, VELOCITY_LIMIT as int);
}

// ---- The submerged part as a whole ---------------------------------------------------

/// The lift on the submerged part is the weight of the water in its place.
pub proof fn law_lift_is_the_weight_of_the_water(sixfold: int)
    ensures
        0 <= 9_810 * sixfold - 6_000_000_000_000 * buoyant_lift(sixfold) < 6_000_000_000_000,
{
}

proof fn lemma_body_axis(k: int, v: int)
    requires
        0 <= k <= 0x2_0000_0000_0000_0000_0000_0000,
        -VELOCITY_LIMIT <= v <= VELOCITY_LIMIT,
    ensures
        ({
            let f = -((k * v) / 1_000_000_000_000);
            &&& f * v <= 0
            &&& -(k * v) <= 1_000_000_000_000 * f < -(k * v) + 1_000_000_000_000
            &&& -0x1000_0000_0000_0000_0000_0000_0000_0000 <= f
                <= 0x1000_0000_0000_0000_0000_0000_0000_0000
        }),
{
    let f = -((k * v) / 1_000_000_000_000);
    lemma_signs(k, v);
    lemma_signs(f, v);
    lemma_against(k * v, 1_000_000_000_000);
    lemma_product_bound(k, v, 0x2_0000_0000_0000_0000_0000_0000, VELOCITY_LIMIT as int);
}

/// The drag on a body whose submerged part has the volume `volume`, on the speed `m`: a part by
/// its cross-section, the square of the cube root `r` of its volume, and a part by the volume.
proof fn lemma_resistance(volume: int, m: int, c: int, r: int)
    requires
        0 <= volume <= 0x80_0000_0000_0000_0000_0000_0000,
        0 <= m <= 0x2000_0000,
        0 <= c <= COEFF_LIMIT,
        0 <= r,
        r * r * r <= volume < (r + 1) * (r + 1) * (r + 1),
    ensures
        ({
            let k = body_resistance(volume, m, c);
            let full = (250 * (r * r) * m + 1_500 * volume) * c;
            &&& 0 <= k <= 0x2_0000_0000_0000_0000_0000_0000
            &&& 0 <= full - 1_000_000_000_000 * k <= 1_000_000 * c + 1_000_000_000_000
        }),
{
    lemma_floor_cbrt_unique(r as nat, volume as nat);
    let k = body_resistance(volume, m, c);
    let sum = 250 * (r * r) * m + 1_500 * volume;
    let q = sum / 1_000_000;
    assert(r <= 0x8_0000_0000) by {
        if r > 0x8_0000_0000 {
            let b = 0x8_0000_0000int;
            assert(r * r >= b * b) by (nonlinear_arith)
                requires
                    r >= b,
                    b >= 0,
            ;
            let rr = r * r;
            assert(rr * r >= (b * b) * b) by (nonlinear_arith)
                requires
                    rr >= b * b,
                    r >= b,
                    b >= 0,
            ;
        }
    }
    assert(0 <= r * r <= 0x40_0000_0000_0000_0000) by (nonlinear_arith)
        requires
            0 <= r <= 0x8_0000_0000,
    ;
    let rr = r * r;
    lemma_product_bound(250 * rr, m, 250int * 0x40_0000_0000_0000_0000int, 0x2000_0000);
    lemma_signs(250 * rr, m);
    lemma_millionth(
        q,
        c,
        0x4000_0000_0000_0000_0000_0000,
        0x40_0000,
        0x2_0000_0000_0000_0000_0000_0000,
    );
    let e = sum - 1_000_000 * q;
    assert((1_000_000 * q + e) * c == 1_000_000 * (q * c) + e * c) by (nonlinear_arith);
    assert(0 <= e * c <= 1_000_000 * c) by (nonlinear_arith)
        requires
            0 <= e <= 1_000_000,
            0 <= c,
    ;
}

/// What a body's drag is along one axis, at the speed `m`.
pub open spec fn dragged(f: int, volume: int, r: int, m: int, c: int, v: int) -> bool {
    let full = (250 * (r * r) * m + 1_500 * volume) * c;
    let e24 = 1_000_000_000_000_000_000_000_000int;
    &&& f * v <= 0
    &&& magnitude(e24 * f + full * v) <= (1_000_000 * c + 1_000_000_000_000) * magnitude(v) + e24
}

/// The drag on the whole body runs against its motion along every axis. It grows with the
/// cross-section and the speed `m` of the body, and with its volume under water.
pub proof fn law_a_body_is_dragged_against_its_motion(
    b: Buoyancy,
    params: SimParams,
    v: Point,
    volume: int,
    r: int,
    m: int,
)
    requires
        0 <= b.sixfold <= 0x200_0000_0000_0000_0000_0000_0000,
        6 * volume <= b.sixfold < 6 * volume + 6,
        params.drag_coeff <= COEFF_LIMIT,
        v.within(VELOCITY_LIMIT as int),
        0 <= r,
        r * r * r <= volume < (r + 1) * (r + 1) * (r + 1),
        0 <= m,
        m * m <= v.x * v.x + v.y * v.y + v.z * v.z < (m + 1) * (m + 1),
    ensures
        ({
            let f = body_drag_at(b, params, v);
            let c = params.drag_coeff as int;
            &&& dragged(f.x as int, volume, r, m, c, v.x as int)
            &&& dragged(f.y as int, volume, r, m, c, v.y as int)
            &&& dragged(f.z as int, volume, r, m, c, v.z as int)
        }),
{
    let c = params.drag_coeff as int;
    super::forces::lemma_length_bound(v, VELOCITY_LIMIT as int);
    lemma_floor_sqrt_unique(m as nat, v.len2() as nat);
    assert(m == speed_of(v));
    lemma_resistance(volume, m, c, r);
    let k = body_resistance(volume, m, c);
    lemma_body_axis(k, v.x as int);
    lemma_body_axis(k, v.y as int);
    lemma_body_axis(k, v.z as int);
    let full = (250 * (r * r) * m + 1_500 * volume) * c;
    lemma_dragged(full, k, c, v.x as int);
    lemma_dragged(full, k, c, v.y as int);
    lemma_dragged(full, k, c, v.z as int);
}

proof fn lemma_dragged(full: int, k: int, c: int, v: int)
    requires
        0 <= full - 1_000_000_000_000 * k <= 1_000_000 * c + 1_000_000_000_000,
        0 <= c,
    ensures
        ({
            let slip = (1_000_000 * c + 1_000_000_000_000) * magnitude(v);
            -slip <= full * v - 1_000_000_000_000 * (k * v) <= slip
        }),
{
    let e = full - 1_000_000_000_000 * k;
    lemma_product_bound(e, v, 1_000_000 * c + 1_000_000_000_000, magnitude(v));
    assert((1_000_000_000_000 * k + e) * v == 1_000_000_000_000 * (k * v) + e * v)
        by (nonlinear_arith);
}

/// The torque on the body runs against its turning about every axis: two hundredths of the mass
/// of the displaced water times the square of the body's length, the coefficient and the rate.
/// `millilitres` are the whole cubic centimetres of it that are under water.
pub proof fn law_a_body_is_damped_against_its_turning(
    b: Buoyancy,
    params: SimParams,
    rate: Point,
    millilitres: int,
)
    requires
        0 <= b.sixfold <= 0x200_0000_0000_0000_0000_0000_0000,
        6_000_000_000_000 * millilitres <= b.sixfold < 6_000_000_000_000 * millilitres + 6_000_000_000_000,
        params.drag_coeff <= COEFF_LIMIT,
        params.shape.valid(),
        rate.within(VELOCITY_LIMIT as int),
    ensures
        ({
            let t = body_torque_at(b, params, rate);
            let (l, c) = (params.shape.length as int, params.drag_coeff as int);
            let full = millilitres * (l * l) * c;
            let slip = 20 * (1_000_000 * c + 1_000_000_000_000);
            let e24 = 1_000_000_000_000_000_000_000_000int;
            &&& t.x * rate.x <= 0 && t.y * rate.y <= 0 && t.z * rate.z <= 0
            &&& magnitude(e24 * t.x + 20 * (full * rate.x)) <= slip * magnitude(rate.x as int) + e24
            &&& magnitude(e24 * t.y + 20 * (full * rate.y)) <= slip * magnitude(rate.y as int) + e24
            &&& magnitude(e24 * t.z + 20 * (full * rate.z)) <= slip * magnitude(rate.z as int) + e24
        }),
{
    let (l, c) = (params.shape.length as int, params.drag_coeff as int);
    let volume = b.sixfold as int / 6;
    assert(volume / 1_000_000_000_000 == millilitres);
    lemma_product_bound(l, l, SHAPE_LIMIT as int, SHAPE_LIMIT as int);
    lemma_signs(l, l);
    let ll = l * l;
    let p = (millilitres * ll) / 1_000_000;
    lemma_millionth(
        millilitres,
        ll,
        0x8000_0000_0000_0000,
        0x4000_0000_0000,
        0x400_0000_0000_0000_0000_0000,
    );
    let k = turning_resistance(volume, l, c);
    lemma_millionth(
        p,
        c,
        0x400_0000_0000_0000_0000_0000,
        0x40_0000,
        0x2000_0000_0000_0000_0000_0000,
    );
    let e = millilitres * ll - 1_000_000 * p;
    assert((1_000_000 * p + e) * c == 1_000_000 * (p * c) + e * c) by (nonlinear_arith);
    assert(0 <= e * c <= 1_000_000 * c) by (nonlinear_arith)
        requires
            0 <= e <= 1_000_000,
            0 <= c,
    ;
    let full = millilitres * ll * c;
    lemma_torque_axis(full, k, c, rate.x as int);
    lemma_torque_axis(full, k, c, rate.y as int);
    lemma_torque_axis(full, k, c, rate.z as int);
}

proof fn lemma_torque_axis(full: int, k: int, c: int, v: int)
    requires
        0 <= k <= 0x2000_0000_0000_0000_0000_0000,
        0 <= full - 1_000_000_000_000 * k <= 1_000_000 * c + 1_000_000_000_000,
        0 <= c,
        -VELOCITY_LIMIT <= v <= VELOCITY_LIMIT,
    ensures
        ({
            let f = -((20 * k * v) / 1_000_000_000_000);
            let slip = 20 * (1_000_000 * c + 1_000_000_000_000);
            let e24 = 1_000_000_000_000_000_000_000_000int;
            &&& f * v <= 0
            &&& magnitude(e24 * f + 20 * (full * v)) <= slip * magnitude(v) + e24
            &&& -0x1000_0000_0000_0000_0000_0000_0000_0000 <= f
                <= 0x1000_0000_0000_0000_0000_0000_0000_0000
        }),
{
    let f = -((20 * k * v) / 1_000_000_000_000);
    lemma_signs(k, v);
    lemma_signs(f, v);
    assert(20 * k * v == 20 * (k * v)) by (nonlinear_arith);
    lemma_against(20 * k * v, 1_000_000_000_000);
    lemma_product_bound(20 * k, v, 20int * 0x2000_0000_0000_0000_0000_0000int, VELOCITY_LIMIT as int);
    lemma_dragged(full, k, c, v);
    let w = 1_000_000 * c + 1_000_000_000_000;
    assert((20 * w) * magnitude(v) == 20 * (w * magnitude(v))) by (nonlinear_arith);
}

} // verus!
