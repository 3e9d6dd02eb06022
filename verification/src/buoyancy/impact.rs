//! What the water does to the elements that it touches: when a triangle slams, how much of a
//! cell is wet, where the pushes act and how they are drawn.

use super::forces::{arrow_tip, body_drag_at, body_torque_at, buoyant_lift, cell_force_at};
use super::forces::{cell_pushes, cell_share, cell_volume, drawn_arrows, face_force_at};
use super::forces::{face_pushes, facing, frame, hull_pushes, saturation, slam_force_at};
use super::forces::{slam_weight, speed_of, stopping_force, stopping_share, strongest, swept};
use super::forces::{torque_of, triangle_pushes, violence, volume_pushes, wet_area, wet_cells};
use super::forces::{Arrow, DrawnArrow, Elements, FrameInput, Motion, Pose, Push, Slam, TriangleMotion};
use super::forces::{WetCell, WetFace, WetTriangle, MASS_LIMIT, VELOCITY_LIMIT};
use super::body::HullCache;
use super::hydro::{turned, Buoyancy, Rotation, HULL_LIMIT};
use super::{SimParams, WATER_LEVEL};
use crate::geom::{lemma_floor_sqrt_unique, lemma_product_bound, Point};
use crate::lists::{lemma_pick_contains, lemma_pick_none, lemma_pick_step};
use vstd::prelude::*;

verus! {

// ---- Slamming ------------------------------------------------------------------------

/// What rounding down keeps of a quotient.
proof fn lemma_quotient(n: int, d: int)
    requires
        0 < d,
    ensures
        d * (n / d) <= n < d * (n / d) + d,
        n >= 0 ==> n / d >= 0,
        n <= 0 ==> n / d <= 0,
{
    vstd::arithmetic::div_mod::lemma_fundamental_div_mod(n, d);
    vstd::arithmetic::div_mod::lemma_mod_bound(n, d);
    let q = n / d;
    assert(n >= 0 ==> q >= 0) by (nonlinear_arith)
        requires
            d > 0,
            n < d * q + d,
    ;
    assert(n <= 0 ==> q <= 0) by (nonlinear_arith)
        requires
            d > 0,
            d * q <= n,
    ;
}

/// The impact of a triangle stops it: along every axis the force runs against the motion, by the
/// weight of the impact times the body's mass and speed.
pub proof fn law_a_slam_runs_against_the_motion(
    slam: Slam,
    params: SimParams,
    rot: Rotation,
    mass: u64,
    dt: u64,
    v: Point,
    weight: int,
)
    requires
        slam_weight(slam, params.slamming_on, params.gamma_max as int, rot, dt, v) == Some(weight),
        0 <= weight <= 0x2_0000_0000_0000,
        mass <= MASS_LIMIT,
        v.within(VELOCITY_LIMIT as int),
    ensures
        slam_force_at(slam, params, rot, mass, dt, v) is Some,
        ({
            let f = slam_force_at(slam, params, rot, mass, dt, v)->0;
            let k = weight * mass;
            &&& v.x >= 0 ==> f.x <= 0
            &&& v.x <= 0 ==> f.x >= 0
            &&& v.y >= 0 ==> f.y <= 0
            &&& v.y <= 0 ==> f.y >= 0
            &&& v.z >= 0 ==> f.z <= 0
            &&& v.z <= 0 ==> f.z >= 0
            &&& -1_000_000_000 * f.x <= k * v.x < -1_000_000_000 * f.x + 1_000_000_000
            &&& -1_000_000_000 * f.y <= k * v.y < -1_000_000_000 * f.y + 1_000_000_000
            &&& -1_000_000_000 * f.z <= k * v.z < -1_000_000_000 * f.z + 1_000_000_000
        }),
{
    lemma_stop(weight, mass as int, v.x as int);
    lemma_stop(weight, mass as int, v.y as int);
    lemma_stop(weight, mass as int, v.z as int);
}

proof fn lemma_stop(weight: int, mass: int, v: int)
    requires
        0 <= weight <= 0x2_0000_0000_0000,
        0 <= mass <= MASS_LIMIT,
        -VELOCITY_LIMIT <= v <= VELOCITY_LIMIT,
    ensures
        v >= 0 ==> stopping_force(weight, mass, v) <= 0,
        v <= 0 ==> stopping_force(weight, mass, v) >= 0,
        -1_000_000_000 * stopping_force(weight, mass, v) <= weight * mass * v < -1_000_000_000
            * stopping_force(weight, mass, v) + 1_000_000_000,
        -0x1000_0000_0000_0000_0000_0000 <= stopping_force(weight, mass, v)
            <= 0x1000_0000_0000_0000_0000_0000,
{
    lemma_product_bound(weight, mass, 0x2_0000_0000_0000, 0x100_0000_0000);
    let k = weight * mass;
    assert(k >= 0) by (nonlinear_arith)
        requires
            k == weight * mass,
            weight >= 0,
            mass >= 0,
    ;
    lemma_product_bound(k, v, 0x2_0000_0000_0000int * 0x100_0000_0000int, 0x1000_0000);
    assert(v >= 0 ==> k * v >= 0) by (nonlinear_arith)
        requires
            k >= 0,
    ;
    assert(v <= 0 ==> k * v <= 0) by (nonlinear_arith)
        requires
            k >= 0,
    ;
    lemma_quotient(k * v, 1_000_000_000);
}

/// A triangle slams only under water, with the model on, with a shape, faster than a tenth of a
/// millimetre a second and facing the way it moves; and only where the volume that it sweeps has
/// changed. `speed` is its speed, rounded down, and `dot` how much it moves along its normal.
pub proof fn law_when_a_triangle_slams(
    slam: Slam,
    on: bool,
    gamma_max: int,
    rot: Rotation,
    dt: u64,
    v: Point,
    speed: int,
)
    requires
        0 <= speed,
        speed * speed <= v.x * v.x + v.y * v.y + v.z * v.z < (speed + 1) * (speed + 1),
        0 < gamma_max,
        slam.geom matches Some(g) ==> 0 < g.area,
    ensures
        ({
            let w = slam_weight(slam, on, gamma_max, rot, dt, v);
            let n = rot.of(slam.geom->0.normal);
            let dot = v.x * n.x + v.y * n.y + v.z * n.z;
            let now = slam.wet_area * speed;
            let change = if now >= slam.before {
                now - slam.before
            } else {
                slam.before - now
            };
            let long = if dt < 100_000 {
                100_000
            } else {
                dt as int
            };
            &&& slam.dry || !on || slam.geom is None || speed <= 100 ==> w is None
            &&& dot <= 0 ==> w is None
            &&& now == slam.before ==> w is None
            &&& !slam.dry && on && slam.geom is Some && speed > 100 && dot >= speed && change
                * 1_000_000_000 >= slam.geom->0.area * long ==> w is Some
        }),
{
    let (x, y, z) = (v.x as int, v.y as int, v.z as int);
    assert(x * x >= 0 && y * y >= 0 && z * z >= 0) by (nonlinear_arith);
    lemma_floor_sqrt_unique(speed as nat, v.len2() as nat);
    assert(speed_of(v) == speed);
    if !slam.dry && on && slam.geom is Some && speed > 100 {
        let g = slam.geom->0;
        let n = rot.of(g.normal);
        let dot = v.x * n.x + v.y * n.y + v.z * n.z;
        lemma_quotient(dot, speed);
        let cos = facing(v, n, speed);
        assert(dot >= speed ==> cos >= 1) by (nonlinear_arith)
            requires
                speed > 0,
                dot < speed * cos + speed,
        ;
        let now = slam.wet_area * speed;
        let before = slam.before as int;
        let (area, long) = (g.area as int, frame(dt));
        assert(area * long > 0) by (nonlinear_arith)
            requires
                area > 0,
                long > 0,
        ;
        let change = if now >= before {
            now - before
        } else {
            before - now
        };
        let gamma = violence(now, before, area, long);
        lemma_quotient(change * 1_000_000_000, area * long);
        let d = area * long;
        assert(change * 1_000_000_000 >= d ==> gamma >= 1) by (nonlinear_arith)
            requires
                d > 0,
                change * 1_000_000_000 < d * gamma + d,
        ;
        if now == before {
            assert(change == 0);
            assert(gamma <= 0);
        }
    }
}

/// How violent an impact is: the change of the swept volume over the triangle's area and the
/// frame's length, which counts as a tenth of a millisecond at least. It does not matter whether
/// the triangle goes in or comes out.
pub proof fn law_violence_is_change_over_time(dv: int, before: int, area: int, dt: u64)
    requires
        0 < area,
    ensures
        ({
            let long = if dt < 100_000 {
                100_000
            } else {
                dt as int
            };
            let change = if dv >= before {
                dv - before
            } else {
                before - dv
            };
            let k = area * long;
            let g = violence(dv, before, area, frame(dt));
            &&& k * g <= change * 1_000_000_000 < k * g + k
            &&& g >= 0
            &&& violence(dv, before, area, frame(dt)) == violence(before, dv, area, frame(dt))
        }),
{
    let long = frame(dt);
    let k = area * long;
    assert(k > 0) by (nonlinear_arith)
        requires
            k == area * long,
            area > 0,
            long > 0,
    ;
    let change = if dv >= before {
        dv - before
    } else {
        before - dv
    };
    lemma_quotient(change * 1_000_000_000, k);
}

/// An impact saturates with the square of its violence: not at all without any, wholly from the
/// largest on, to a quarter at half of it, and never less for a more violent one.
pub proof fn law_impacts_saturate(gamma: int, more: int, gamma_max: int)
    requires
        0 <= gamma <= more,
        0 < gamma_max,
    ensures
        0 <= saturation(gamma, gamma_max) <= saturation(more, gamma_max) <= 1_000_000,
        saturation(0, gamma_max) == 0,
        gamma >= gamma_max ==> saturation(gamma, gamma_max) == 1_000_000,
        2 * gamma == gamma_max ==> saturation(gamma, gamma_max) == 250_000,
{
    lemma_saturated(gamma, gamma_max);
    lemma_saturated(more, gamma_max);
    let (a, b) = ((gamma * 1_000_000) / gamma_max, (more * 1_000_000) / gamma_max);
    vstd::arithmetic::div_mod::lemma_div_is_ordered(gamma * 1_000_000, more * 1_000_000, gamma_max);
    let (r, s) = (if a > 1_000_000 {
        1_000_000
    } else {
        a
    }, if b > 1_000_000 {
        1_000_000
    } else {
        b
    });
    assert(r * r <= s * s) by (nonlinear_arith)
        requires
            0 <= r <= s,
    ;
    vstd::arithmetic::div_mod::lemma_div_of0(gamma_max);
    if 2 * gamma == gamma_max {
        vstd::arithmetic::div_mod::lemma_fundamental_div_mod_converse(
            gamma * 1_000_000,
            gamma_max,
            500_000,
            0,
        );
    }
    assert(0int * 0 == 0);
    assert(500_000int * 500_000 == 250_000_000_000) by (nonlinear_arith);
}

proof fn lemma_saturated(gamma: int, gamma_max: int)
    requires
        0 <= gamma,
        0 < gamma_max,
    ensures
        (gamma * 1_000_000) / gamma_max >= 0,
        0 <= saturation(gamma, gamma_max) <= 1_000_000,
        gamma >= gamma_max ==> (gamma * 1_000_000) / gamma_max >= 1_000_000,
        gamma >= gamma_max ==> saturation(gamma, gamma_max) == 1_000_000,
{
    let q = (gamma * 1_000_000) / gamma_max;
    lemma_quotient(gamma * 1_000_000, gamma_max);
    if gamma >= gamma_max {
        assert(q >= 1_000_000) by (nonlinear_arith)
            requires
                gamma * 1_000_000 < gamma_max * q + gamma_max,
                gamma >= gamma_max,
                gamma_max > 0,
        ;
    }
    let r = if q > 1_000_000 {
        1_000_000
    } else {
        q
    };
    assert(0 <= r * r <= 1_000_000 * 1_000_000) by (nonlinear_arith)
        requires
            0 <= r <= 1_000_000,
    ;
    assert(1_000_000int * 1_000_000 == 1_000_000_000_000) by (nonlinear_arith);
}

/// The weight of an impact is what its saturation, its facing and its share of the hull make
/// together: `sat`, `cos` and `share` in millionths, rounded down one after the other. The share
/// is twice the triangle's part of the hull's area.
pub proof fn law_the_weight_of_an_impact(
    slam: Slam,
    gamma_max: int,
    rot: Rotation,
    dt: u64,
    v: Point,
    w: int,
)
    requires
        slam_weight(slam, true, gamma_max, rot, dt, v) == Some(w),
        0 < gamma_max,
        0 < slam.total_area,
        slam.geom matches Some(g) ==> 0 < g.area,
    ensures
        ({
            let g = slam.geom->0;
            let sat = saturation(
                violence(slam.wet_area * speed_of(v), slam.before as int, g.area as int, frame(dt)),
                gamma_max,
            );
            let cos = facing(v, rot.of(g.normal), speed_of(v) as int);
            let share = stopping_share(g.area as int, slam.total_area as int);
            let part = (sat * cos) / 1_000_000;
            &&& slam.geom is Some
            &&& 0 <= w
            &&& slam.total_area * share <= 2_000_000 * g.area < slam.total_area * share
                + slam.total_area
            &&& 1_000_000 * part <= sat * cos < 1_000_000 * part + 1_000_000
            &&& 1_000_000 * w <= part * share < 1_000_000 * w + 1_000_000
            &&& cos <= 1_000_000 ==> w <= share
        }),
{
    let g = slam.geom->0;
    let (area, total) = (g.area as int, slam.total_area as int);
    let gamma = violence(slam.wet_area * speed_of(v), slam.before as int, area, frame(dt));
    let cos = facing(v, rot.of(g.normal), speed_of(v) as int);
    let sat = saturation(gamma, gamma_max);
    lemma_saturated(gamma, gamma_max);
    let share = stopping_share(area, total);
    assert(2 * area * 1_000_000 == 2_000_000 * area);
    lemma_quotient(2_000_000 * area, total);
    assert(sat * cos >= 0) by (nonlinear_arith)
        requires
            sat >= 0,
            cos >= 0,
    ;
    let part = (sat * cos) / 1_000_000;
    assert(part * share >= 0) by (nonlinear_arith)
        requires
            part >= 0,
            share >= 0,
    ;
    if cos <= 1_000_000 {
        assert(sat * cos <= 1_000_000 * 1_000_000) by (nonlinear_arith)
            requires
                0 <= sat <= 1_000_000,
                0 <= cos <= 1_000_000,
        ;
        assert(1_000_000int * 1_000_000 == 1_000_000_000_000) by (nonlinear_arith);
        assert(part <= 1_000_000);
        assert(part * share <= 1_000_000 * share) by (nonlinear_arith)
            requires
                part <= 1_000_000,
                share >= 0,
        ;
    }
}

/// A triangle that moves along its outward normal faces its way wholly, to the rounding of its
/// speed.
pub proof fn law_facing_is_along_the_normal(v: Point, normal: Point, speed: int)
    requires
        0 < speed,
    ensures
        speed * facing(v, normal, speed) <= v.x * normal.x + v.y * normal.y + v.z * normal.z < speed
            * facing(v, normal, speed) + speed,
{
    lemma_quotient(v.x * normal.x + v.y * normal.y + v.z * normal.z, speed);
}

/// A wet triangle sweeps its wet area at its speed; nothing is swept out of the water or with the
/// model off, and a triangle without a shape keeps what it swept.
pub proof fn law_what_a_triangle_sweeps(slam: Slam, v: Point, speed: int)
    requires
        0 <= speed,
        speed * speed <= v.x * v.x + v.y * v.y + v.z * v.z < (speed + 1) * (speed + 1),
    ensures
        !slam.dry && slam.geom is Some ==> swept(slam, true, v) == speed * slam.wet_area,
        !slam.dry && slam.geom is None ==> swept(slam, true, v) == slam.before,
        slam.dry ==> swept(slam, true, v) == 0,
        swept(slam, false, v) == 0,
{
    let (x, y, z) = (v.x as int, v.y as int, v.z as int);
    assert(x * x >= 0 && y * y >= 0 && z * z >= 0) by (nonlinear_arith);
    lemma_floor_sqrt_unique(speed as nat, v.len2() as nat);
    let a = slam.wet_area as int;
    assert(a * speed == speed * a) by (nonlinear_arith);
}

// ---- Cells ---------------------------------------------------------------------------

/// A cell is half under water with its middle on the surface, wholly from half a cell down and
/// not at all from half a cell up, and in between the more the deeper, evenly.
pub proof fn law_a_cell_goes_under_evenly(y: int, side: int, res: int)
    requires
        0 < side,
        0 < res,
    ensures
        cell_share(WATER_LEVEL as int, side, res) == 500_000,
        2 * res * y >= side ==> cell_share(y, side, res) == 0,
        2 * res * y <= -side ==> cell_share(y, side, res) == 1_000_000,
        -side <= 2 * res * y <= side ==> side * (cell_share(y, side, res) - 500_000) <= -1_000_000
            * (res * y) < side * (cell_share(y, side, res) - 500_000) + side,
        0 <= cell_share(y, side, res) <= 1_000_000,
{
    let n = (WATER_LEVEL - y) * res * 1_000_000;
    let k = res * y;
    assert((WATER_LEVEL - y) * res == -k) by (nonlinear_arith)
        requires
            k == res * y,
            WATER_LEVEL == 0,
    ;
    assert(2 * res * y == 2 * k) by (nonlinear_arith)
        requires
            k == res * y,
    ;
    assert(n == -1_000_000 * k);
    lemma_quotient(n, side);
    let q = n / side;
    assert(2 * k >= side ==> q <= -500_000) by (nonlinear_arith)
        requires
            side > 0,
            side * q <= -1_000_000 * k,
    ;
    assert(2 * k <= -side ==> q >= 500_000) by (nonlinear_arith)
        requires
            side > 0,
            -1_000_000 * k < side * q + side,
    ;
    assert(2 * k <= side ==> q >= -500_000) by (nonlinear_arith)
        requires
            side > 0,
            -1_000_000 * k < side * q + side,
    ;
    assert(2 * k >= -side ==> q <= 500_000) by (nonlinear_arith)
        requires
            side > 0,
            side * q <= -1_000_000 * k,
    ;
    assert((WATER_LEVEL - WATER_LEVEL) * res * 1_000_000 == 0) by (nonlinear_arith);
    vstd::arithmetic::div_mod::lemma_div_of0(side);
}

/// The deeper a cell, the more of it is under water.
pub proof fn law_a_deeper_cell_is_wetter(low: int, high: int, side: int, res: int)
    requires
        low <= high,
        0 < side,
        0 < res,
    ensures
        cell_share(high, side, res) <= cell_share(low, side, res),
{
    let (m, n) = ((WATER_LEVEL - high) * res * 1_000_000, (WATER_LEVEL - low) * res * 1_000_000);
    assert(m <= n) by (nonlinear_arith)
        requires
            m == (WATER_LEVEL - high) * res * 1_000_000,
            n == (WATER_LEVEL - low) * res * 1_000_000,
            low <= high,
            0 < res,
    ;
    vstd::arithmetic::div_mod::lemma_div_is_ordered(m, n, side);
}

/// A cell's wet volume is its share of its own: the grid has `res` cells to a side.
pub proof fn law_a_cell_s_volume_is_its_share(side: int, res: int, share: int)
    requires
        0 < side,
        0 < res,
        0 <= share <= 1_000_000,
    ensures
        ({
            let cells = res * res * res;
            let v = cell_volume(side, res, share);
            &&& 1_000_000 * (cells * v) <= side * side * side * share < 1_000_000 * (cells * v)
                + 1_000_000 * cells
            &&& 0 <= v
        }),
{
    let cells = res * res * res;
    assert(cells > 0) by (nonlinear_arith)
        requires
            cells == res * res * res,
            res > 0,
    ;
    let n = side * side * side * share;
    let cube = side * side * side;
    assert(cube > 0) by (nonlinear_arith)
        requires
            cube == side * side * side,
            side > 0,
    ;
    assert(n >= 0) by (nonlinear_arith)
        requires
            n == cube * share,
            cube > 0,
            share >= 0,
    ;
    let d = cells * 1_000_000;
    lemma_quotient(n, d);
    let v = n / d;
    assert(d * v == 1_000_000 * (cells * v)) by (nonlinear_arith)
        requires
            d == cells * 1_000_000,
    ;
}

/// One more cell is wet where the pose puts its middle less than half a cell above the surface,
/// and is then listed there with its wet volume; a dry one is not listed.
pub proof fn law_wet_cells_are_listed(
    centres: Seq<Point>,
    c: Point,
    side: int,
    res: int,
    pose: Pose,
)
    ensures
        ({
            let share = cell_share(pose.of(c).y as int, side, res);
            let (before, after) = (
                wet_cells(centres, side, res, pose),
                wet_cells(centres.push(c), side, res, pose),
            );
            &&& share <= 0 ==> after == before
            &&& share > 0 ==> after == before.push(
                (WetCell { at: pose.of(c), volume: cell_volume(side, res, share) as u128 }),
            )
        }),
        wet_cells(Seq::empty(), side, res, pose) == Seq::<WetCell>::empty(),
{
    let p = |c: Point| cell_share(pose.of(c).y as int, side, res) > 0;
    let f = |c: Point|
        WetCell {
            at: pose.of(c),
            volume: cell_volume(side, res, cell_share(pose.of(c).y as int, side, res)) as u128,
        };
    let n = centres.len() as int;
    let more = centres.push(c);
    let none = Seq::<Point>::empty();
    assert(more.take(n) == centres && more.take(n + 1) == more && none.take(0) == none);
    lemma_pick_step(more, n, p, f);
    lemma_pick_none(none, p, f);
}

// ---- Poses ---------------------------------------------------------------------------

/// A turn takes each axis of the body to the axis of the turn, and what lies along several of
/// them to the sum, to the micrometre.
pub proof fn law_a_turn_takes_axes_to_axes(rot: Rotation, p: Point)
    requires
        rot.valid(),
        p.within(0x1000_0000_0000),
    ensures
        ({
            let q = rot.of(p);
            let (a, b, c) = (rot.x_axis, rot.y_axis, rot.z_axis);
            &&& 1_000_000 * q.x <= p.x * a.x + p.y * b.x + p.z * c.x < 1_000_000 * q.x + 1_000_000
            &&& 1_000_000 * q.y <= p.x * a.y + p.y * b.y + p.z * c.y < 1_000_000 * q.y + 1_000_000
            &&& 1_000_000 * q.z <= p.x * a.z + p.y * b.z + p.z * c.z < 1_000_000 * q.z + 1_000_000
        }),
{
    let (a, b, c) = (rot.x_axis, rot.y_axis, rot.z_axis);
    lemma_row(a.x as int, b.x as int, c.x as int, p);
    lemma_row(a.y as int, b.y as int, c.y as int, p);
    lemma_row(a.z as int, b.z as int, c.z as int, p);
}

proof fn lemma_row(a: int, b: int, c: int, p: Point)
    requires
        -1_000_000 <= a <= 1_000_000,
        -1_000_000 <= b <= 1_000_000,
        -1_000_000 <= c <= 1_000_000,
        p.within(0x1000_0000_0000),
    ensures
        1_000_000 * turned(a, b, c, p) <= p.x * a + p.y * b + p.z * c < 1_000_000 * turned(a, b, c, p)
            + 1_000_000,
        -0x4000_0000_0000 <= turned(a, b, c, p) <= 0x4000_0000_0000,
{
    let (x, y, z) = (p.x as int, p.y as int, p.z as int);
    lemma_product_bound(a, x, 1_000_000, 0x1000_0000_0000);
    lemma_product_bound(b, y, 1_000_000, 0x1000_0000_0000);
    lemma_product_bound(c, z, 1_000_000, 0x1000_0000_0000);
    assert(a * x == x * a && b * y == y * b && c * z == z * c) by (nonlinear_arith);
}

/// A point of a body is where the body's turn takes it, off the body's place.
pub proof fn law_a_pose_turns_and_moves(pose: Pose, p: Point)
    requires
        pose.valid(),
        p.within(0x1000_0000_0000),
    ensures
        pose.of(p).x - pose.pos.x == pose.rot.of(p).x,
        pose.of(p).y - pose.pos.y == pose.rot.of(p).y,
        pose.of(p).z - pose.pos.z == pose.rot.of(p).z,
{
    let (a, b, c) = (pose.rot.x_axis, pose.rot.y_axis, pose.rot.z_axis);
    lemma_row(a.x as int, b.x as int, c.x as int, p);
    lemma_row(a.y as int, b.y as int, c.y as int, p);
    lemma_row(a.z as int, b.z as int, c.z as int, p);
}

// ---- Pushes --------------------------------------------------------------------------

/// A wet cell is pushed at its own middle by the force on it.
pub proof fn law_cells_are_pushed_at_their_middles(
    cells: Seq<WetCell>,
    params: SimParams,
    v: Seq<Point>,
    i: int,
)
    requires
        0 <= i < cells.len(),
    ensures
        ({
            let push = cell_pushes(cells, params, v)[i];
            &&& cell_pushes(cells, params, v).len() == cells.len()
            &&& push.at.x == cells[i].at.x && push.at.y == cells[i].at.y && push.at.z
                == cells[i].at.z
            &&& push.force == cell_force_at(cells[i], params, v[i])
        }),
{
}

/// A wet face is pushed at its own middle by the force on it.
pub proof fn law_faces_are_pushed_at_their_middles(
    faces: Seq<WetFace>,
    params: SimParams,
    c_f: int,
    v: Seq<Point>,
    i: int,
)
    requires
        0 <= i < faces.len(),
    ensures
        ({
            let push = face_pushes(faces, params, c_f, v)[i];
            &&& face_pushes(faces, params, c_f, v).len() == faces.len()
            &&& push.at.x == faces[i].at.x && push.at.y == faces[i].at.y && push.at.z
                == faces[i].at.z
            &&& push.force == face_force_at(faces[i], params, c_f, v[i])
        }),
{
}

/// The area under water is that of its faces together.
pub proof fn law_wet_areas_add_up(faces: Seq<WetFace>, f: WetFace)
    ensures
        wet_area(faces.push(f)) - wet_area(faces) == f.area,
        wet_area(Seq::empty()) == 0,
{
    assert(faces.push(f).drop_last() == faces);
}

/// A triangle of the hull is pushed on each of its wet faces, and last at its own middle by its
/// impact, where there is one, from what it is and swept itself.
pub proof fn law_a_triangle_is_pushed_by_its_own_water(
    hull: HullCache,
    j: int,
    wet: WetTriangle,
    motion: TriangleMotion,
    params: SimParams,
    pose: Pose,
    input: FrameInput,
)
    ensures
        ({
            let slam = Slam {
                dry: wet.dry,
                geom: hull.tri_geoms@[j],
                wet_area: wet.area,
                before: hull.prev_dv@[j],
                total_area: hull.total_area,
            };
            let impact = slam_force_at(
                slam,
                params,
                pose.rot,
                input.mass,
                input.dt,
                motion.middle,
            );
            let pushes = triangle_pushes(hull, j, wet, motion, params, pose, input);
            let n = wet.faces@.len() as int;
            &&& impact is None ==> pushes.len() == n
            &&& impact matches Some(f) ==> {
                let at = pose.of(hull.tri_geoms@[j]->0.centroid);
                &&& pushes.len() == n + 1
                &&& pushes[n].force == f
                &&& pushes[n].at.x == at.x && pushes[n].at.y == at.y && pushes[n].at.z == at.z
            }
            &&& pushes.take(n) == face_pushes(
                wet.faces@,
                params,
                input.friction as int,
                motion.faces@,
            )
        }),
{
    let pushes = triangle_pushes(hull, j, wet, motion, params, pose, input);
    let faces = face_pushes(wet.faces@, params, input.friction as int, motion.faces@);
    assert(pushes.take(faces.len() as int) =~= faces);
}

/// The triangles of the hull are pushed one after the other, each with its own water and its own
/// motion.
pub proof fn law_the_hull_is_pushed_triangle_by_triangle(
    hull: HullCache,
    wet: Seq<WetTriangle>,
    motion: Seq<TriangleMotion>,
    params: SimParams,
    pose: Pose,
    input: FrameInput,
    n: int,
)
    requires
        0 <= n,
    ensures
        hull_pushes(hull, wet, motion, params, pose, input, n + 1) == hull_pushes(
            hull,
            wet,
            motion,
            params,
            pose,
            input,
            n,
        ) + triangle_pushes(hull, n, wet[n], motion[n], params, pose, input),
        hull_pushes(hull, wet, motion, params, pose, input, 0) == Seq::<Push>::empty(),
{
}

/// The submerged part as a whole is lifted straight up at its centre, and with the drag switched
/// on it is dragged there too; its turning is damped with the drag on, and never otherwise.
pub proof fn law_the_submerged_part_is_lifted_at_its_centre(
    b: Buoyancy,
    params: SimParams,
    v: Point,
    rate: Point,
)
    requires
        0 <= b.sixfold <= 0x200_0000_0000_0000_0000_0000_0000,
    ensures
        ({
            let pushes = volume_pushes(Some(b), params, v);
            &&& pushes.len() == if params.drag_on {
                2int
            } else {
                1
            }
            &&& forall|i: int|
                0 <= i < pushes.len() ==> (#[trigger] pushes[i]).at.x == b.x && pushes[i].at.y == b.y
                    && pushes[i].at.z == b.z
            &&& pushes[0].force.x == 0 && pushes[0].force.z == 0
            &&& pushes[0].force.y == buoyant_lift(b.sixfold as int)
            &&& pushes[0].force.y >= 0
            &&& params.drag_on ==> pushes[1].force == body_drag_at(b, params, v)
        }),
        volume_pushes(None, params, v) == Seq::<Push>::empty(),
        params.drag_on ==> torque_of(Elements::Body(Some(b)), Motion::Body(v, rate), params) == Some(
            body_torque_at(b, params, rate),
        ),
        !params.drag_on ==> torque_of(
            Elements::Body(Some(b)),
            Motion::Body(v, rate),
            params,
        ) is None,
        torque_of(Elements::Body(None), Motion::Body(v, rate), params) is None,
{
    let s = b.sixfold as int;
    lemma_quotient(s * 981, 600_000_000_000);
}

// ---- Arrows --------------------------------------------------------------------------

/// The strongest force is one of the forces, and none is stronger.
pub proof fn law_the_strongest_is_among_them(arrows: Seq<Arrow>, i: int)
    requires
        0 <= i < arrows.len(),
    ensures
        speed_of(arrows[i].force) <= strongest(arrows),
        exists|k: int|
            0 <= k < arrows.len() && speed_of((#[trigger] arrows[k]).force) == strongest(arrows),
    decreases arrows.len(),
{
    let front = arrows.drop_last();
    let n = arrows.len() - 1;
    assert(arrows.last() == arrows[n]);
    if front.len() > 0 {
        let j = if i < n {
            i
        } else {
            0
        };
        law_the_strongest_is_among_them(front, j);
        assert(front[j] == arrows[j]);
        let k = choose|k: int|
            0 <= k < front.len() && speed_of((#[trigger] front[k]).force) == strongest(front);
        assert(front[k] == arrows[k]);
    } else {
        assert(strongest(front) == 0);
    }
}

/// An arrow runs from where its force acts along the force, a metre and a half for the strongest
/// and in proportion for the others, axis by axis to the micrometre.
pub proof fn law_arrows_run_along_their_forces(a: Arrow, max: int)
    requires
        0 < max,
        a.at.within(HULL_LIMIT as int),
        -max <= a.force.x <= max,
        -max <= a.force.y <= max,
        -max <= a.force.z <= max,
    ensures
        ({
            let t = arrow_tip(a, max);
            &&& max * (t.x - a.at.x) <= 1_500_000 * a.force.x < max * (t.x - a.at.x) + max
            &&& max * (t.y - a.at.y) <= 1_500_000 * a.force.y < max * (t.y - a.at.y) + max
            &&& max * (t.z - a.at.z) <= 1_500_000 * a.force.z < max * (t.z - a.at.z) + max
        }),
{
    lemma_tip(a.force.x as int, max);
    lemma_tip(a.force.y as int, max);
    lemma_tip(a.force.z as int, max);
}

proof fn lemma_tip(force: int, max: int)
    requires
        0 < max,
        -max <= force <= max,
    ensures
        max * ((force * 1_500_000) / max) <= 1_500_000 * force < max * ((force * 1_500_000) / max)
            + max,
        -1_500_001 <= (force * 1_500_000) / max <= 1_500_000,
{
    lemma_quotient(force * 1_500_000, max);
    let q = (force * 1_500_000) / max;
    assert(q <= 1_500_000) by (nonlinear_arith)
        requires
            max * q <= force * 1_500_000,
            force <= max,
            max > 0,
    ;
    assert(q >= -1_500_001) by (nonlinear_arith)
        requires
            force * 1_500_000 < max * q + max,
            force >= -max,
            max > 0,
    ;
}

/// Of the arrows just those are drawn whose tip is more than a millimetre from where they start,
/// from there to that tip; none at all where no force acts.
pub proof fn law_short_arrows_are_left_out(arrows: Seq<Arrow>, from: Point, to: Point)
    ensures
        strongest(arrows) == 0 ==> drawn_arrows(arrows).len() == 0,
        strongest(arrows) != 0 ==> (drawn_arrows(arrows).contains(DrawnArrow { from, to })
            <==> exists|i: int|
            0 <= i < arrows.len() && (#[trigger] arrows[i]).at == from && arrow_tip(
                arrows[i],
                strongest(arrows) as int,
            ) == to && (from.x - to.x) * (from.x - to.x) + (from.y - to.y) * (from.y - to.y) + (
            from.z - to.z) * (from.z - to.z) > 1_000_000),
{
    let max = strongest(arrows) as int;
    let p = |a: Arrow| a.at.dist2(arrow_tip(a, max)) > 1_000_000;
    let f = |a: Arrow| DrawnArrow { from: a.at, to: arrow_tip(a, max) };
    let d = DrawnArrow { from, to };
    lemma_pick_contains(arrows, p, f, d);
    lemma_dist2(from, to);
    if max != 0 {
        assert(drawn_arrows(arrows) == crate::lists::pick(arrows, p, f));
        if drawn_arrows(arrows).contains(d) {
            let i = choose|i: int|
                0 <= i < arrows.len() && p(#[trigger] arrows[i]) && f(arrows[i]) == d;
            assert(arrows[i].at == from && arrow_tip(arrows[i], max) == to);
        }
        if exists|i: int|
            0 <= i < arrows.len() && (#[trigger] arrows[i]).at == from && arrow_tip(arrows[i], max)
                == to && from.dist2(to) > 1_000_000 {
            let i = choose|i: int|
                0 <= i < arrows.len() && (#[trigger] arrows[i]).at == from && arrow_tip(
                    arrows[i],
                    max,
                ) == to && from.dist2(to) > 1_000_000;
            assert(p(arrows[i]) && f(arrows[i]) == d);
        }
    }
}

proof fn lemma_dist2(a: Point, b: Point)
    ensures
        a.dist2(b) == (a.x - b.x) * (a.x - b.x) + (a.y - b.y) * (a.y - b.y) + (a.z - b.z) * (a.z
            - b.z),
{
    let (x, y, z) = (a.x - b.x, a.y - b.y, a.z - b.z);
    assert((b.x - a.x) * (b.x - a.x) == x * x) by (nonlinear_arith)
        requires
            x == a.x - b.x,
    ;
    assert((b.y - a.y) * (b.y - a.y) == y * y) by (nonlinear_arith)
        requires
            y == a.y - b.y,
    ;
    assert((b.z - a.z) * (b.z - a.z) == z * z) by (nonlinear_arith)
        requires
            z == a.z - b.z,
    ;
}

} // verus!
